//! Values shared by chunking, indexing and search.

use crate::text::str_eq;
use vstd::prelude::*;

verus! {

/// A piece of a document before its vector is known.
#[derive(Debug)]
pub struct TextChunk {
    pub content: String,
    /// The titles of the enclosing headings, outermost first, joined by ` > `.
    pub heading_path: String,
    /// The first line of the piece, counting from 1.
    pub start_line: usize,
    /// The last line of the piece.
    pub end_line: usize,
}

/// A [`TextChunk`] as a mathematical value.
pub ghost struct TextChunkView {
    pub content: Seq<char>,
    pub heading_path: Seq<char>,
    pub start_line: usize,
    pub end_line: usize,
}

impl View for TextChunk {
    type V = TextChunkView;

    open spec fn view(&self) -> TextChunkView {
        TextChunkView {
            content: self.content@,
            heading_path: self.heading_path@,
            start_line: self.start_line,
            end_line: self.end_line,
        }
    }
}

impl Clone for TextChunk {
    fn clone(&self) -> (r: TextChunk)
        ensures
            r@ == self@,
    {
        TextChunk {
            content: self.content.clone(),
            heading_path: self.heading_path.clone(),
            start_line: self.start_line,
            end_line: self.end_line,
        }
    }
}

/// The views of a sequence of text chunks.
pub open spec fn text_chunk_views(chunks: Seq<TextChunk>) -> Seq<TextChunkView> {
    Seq::new(chunks.len(), |i: int| chunks[i]@)
}

/// How a query is matched against the index.
#[derive(Debug, Clone, Copy, PartialEq, Eq, Structural)]
pub enum SearchMode {
    /// By vector distance only.
    Vector,
    /// By keywords only.
    Keyword,
    /// By both, fused.
    Hybrid,
}

impl Default for SearchMode {
    fn default() -> (m: SearchMode)
        ensures
            m == SearchMode::Hybrid,
    {
        SearchMode::Hybrid
    }
}

/// The unit in which results are reported.
#[derive(Debug, Clone, Copy, PartialEq, Eq, Structural)]
pub enum AggregateBy {
    /// Single chunks.
    Content,
    /// One result for each document.
    Doc,
    /// One result for each folder.
    Folder,
}

impl Default for AggregateBy {
    fn default() -> (a: AggregateBy)
        ensures
            a == AggregateBy::Doc,
    {
        AggregateBy::Doc
    }
}

/// How a result was found.
#[derive(Debug, Clone, Copy, PartialEq, Eq, Structural)]
pub enum MatchType {
    Vector,
    Keyword,
    Hybrid,
}

/// The mode that `name` stands for: `vector`, `keyword`, and hybrid for
/// every other name.
pub open spec fn mode_named(name: Seq<char>) -> SearchMode {
    if name == "vector"@ {
        SearchMode::Vector
    } else if name == "keyword"@ {
        SearchMode::Keyword
    } else {
        SearchMode::Hybrid
    }
}

/// The unit that `name` stands for: `content`, `folder`, and documents
/// for every other name.
pub open spec fn unit_named(name: Seq<char>) -> AggregateBy {
    if name == "content"@ {
        AggregateBy::Content
    } else if name == "folder"@ {
        AggregateBy::Folder
    } else {
        AggregateBy::Doc
    }
}

impl SearchMode {
    /// The mode that `name` stands for, as [`mode_named`] says.
    pub fn from_name(name: &str) -> (m: SearchMode)
        ensures
            m == mode_named(name@),
    {
        if str_eq(name, "vector") {
            SearchMode::Vector
        } else if str_eq(name, "keyword") {
            SearchMode::Keyword
        } else {
            SearchMode::Hybrid
        }
    }
}

impl AggregateBy {
    /// The unit that `name` stands for, as [`unit_named`] says.
    pub fn from_name(name: &str) -> (a: AggregateBy)
        ensures
            a == unit_named(name@),
    {
        if str_eq(name, "content") {
            AggregateBy::Content
        } else if str_eq(name, "folder") {
            AggregateBy::Folder
        } else {
            AggregateBy::Doc
        }
    }
}

/// What a caller asks of a search.
#[derive(Debug)]
pub struct SearchOptions {
    pub query: String,
    /// The largest number of results; ten where none is given.
    pub limit: Option<usize>,
    pub mode: Option<SearchMode>,
    pub aggregate_by: Option<AggregateBy>,
    /// `doc` or `idea`, to see only chunks of that kind.
    pub doc_type: Option<String>,
}

impl Default for SearchOptions {
    fn default() -> (o: SearchOptions)
        ensures
            o.query@.len() == 0,
            o.limit is None,
            o.mode is None,
            o.aggregate_by is None,
            o.doc_type is None,
    {
        SearchOptions {
            query: String::new(),
            limit: None,
            mode: None,
            aggregate_by: None,
            doc_type: None,
        }
    }
}

impl SearchOptions {
    /// The options for `query` with limit, mode and unit as a caller
    /// outside names them. A name that is not known stands for the default.
    pub fn from_names(
        query: String,
        limit: Option<u32>,
        mode: Option<&str>,
        aggregate_by: Option<&str>,
    ) -> (o: SearchOptions)
        ensures
            o.query == query,
            o.limit == match limit {
                Some(n) => Some(n as usize),
                None => None,
            },
            o.mode == match mode {
                Some(name) => Some(mode_named(name@)),
                None => None,
            },
            o.aggregate_by == match aggregate_by {
                Some(name) => Some(unit_named(name@)),
                None => None,
            },
            o.doc_type is None,
    {
        SearchOptions {
            query,
            limit: match limit {
                Some(n) => Some(n as usize),
                None => None,
            },
            mode: match mode {
                Some(name) => Some(SearchMode::from_name(name)),
                None => None,
            },
            aggregate_by: match aggregate_by {
                Some(name) => Some(AggregateBy::from_name(name)),
                None => None,
            },
            doc_type: None,
        }
    }

    /// The largest number of results: the one given, else ten.
    pub fn limit(&self) -> (n: usize)
        ensures
            n == match self.limit {
                Some(l) => l,
                None => 10,
            },
    {
        match self.limit {
            Some(l) => l,
            None => 10,
        }
    }

    /// The mode: the one given, else hybrid.
    pub fn mode(&self) -> (m: SearchMode)
        ensures
            m == match self.mode {
                Some(given) => given,
                None => SearchMode::Hybrid,
            },
    {
        match self.mode {
            Some(given) => given,
            None => SearchMode::Hybrid,
        }
    }

    /// The unit of the results: the one given, else documents.
    pub fn aggregate_by(&self) -> (a: AggregateBy)
        ensures
            a == match self.aggregate_by {
                Some(given) => given,
                None => AggregateBy::Doc,
            },
    {
        match self.aggregate_by {
            Some(given) => given,
            None => AggregateBy::Doc,
        }
    }
}

/// A chunk as it is stored in the index, without its vector.
#[derive(Debug)]
pub struct Chunk {
    /// The path of the file, `#`, and the position or the entry identifier.
    pub id: String,
    pub file_path: String,
    pub content: String,
    pub heading_path: String,
    /// The title of an idea entry.
    pub section_title: Option<String>,
    /// `doc` or `idea`.
    pub doc_type: Option<String>,
    pub entry_id: Option<String>,
    /// The day on which an idea entry was created.
    pub entry_date: Option<String>,
    pub entry_created_at: Option<String>,
    /// The position of the chunk within its file.
    pub chunk_index: usize,
}

/// A [`Chunk`] as a mathematical value.
pub ghost struct ChunkView {
    pub id: Seq<char>,
    pub file_path: Seq<char>,
    pub content: Seq<char>,
    pub heading_path: Seq<char>,
    pub section_title: Option<Seq<char>>,
    pub doc_type: Option<Seq<char>>,
    pub entry_id: Option<Seq<char>>,
    pub entry_date: Option<Seq<char>>,
    pub entry_created_at: Option<Seq<char>>,
    pub chunk_index: usize,
}

/// The view of an optional text.
pub open spec fn opt_text(text: Option<String>) -> Option<Seq<char>> {
    match text {
        Some(t) => Some(t@),
        None => None,
    }
}

impl View for Chunk {
    type V = ChunkView;

    open spec fn view(&self) -> ChunkView {
        ChunkView {
            id: self.id@,
            file_path: self.file_path@,
            content: self.content@,
            heading_path: self.heading_path@,
            section_title: opt_text(self.section_title),
            doc_type: opt_text(self.doc_type),
            entry_id: opt_text(self.entry_id),
            entry_date: opt_text(self.entry_date),
            entry_created_at: opt_text(self.entry_created_at),
            chunk_index: self.chunk_index,
        }
    }
}

/// The views of a sequence of chunks.
pub open spec fn chunk_views(chunks: Seq<Chunk>) -> Seq<ChunkView> {
    Seq::new(chunks.len(), |i: int| chunks[i]@)
}

/// One result of a search, without its score.
#[derive(Debug)]
pub struct SearchHit {
    pub file_path: String,
    /// The name under which the result is shown.
    pub display_name: String,
    pub content: String,
    pub heading_path: Option<String>,
    pub section_title: Option<String>,
    pub line_start: Option<usize>,
    pub line_end: Option<usize>,
    pub matched_by: MatchType,
    /// The number of hits in the document, for results by document.
    pub hit_count: Option<usize>,
    /// The number of documents, for results by folder.
    pub doc_count: Option<usize>,
    pub folder_path: Option<String>,
    /// `doc` or `folder`, for aggregated results.
    pub aggregate_type: Option<String>,
    /// `doc` or `idea`.
    pub doc_type: Option<String>,
    pub entry_id: Option<String>,
    pub entry_date: Option<String>,
    pub entry_created_at: Option<String>,
}

/// A [`SearchHit`] as a mathematical value.
pub ghost struct SearchHitView {
    pub file_path: Seq<char>,
    pub display_name: Seq<char>,
    pub content: Seq<char>,
    pub heading_path: Option<Seq<char>>,
    pub section_title: Option<Seq<char>>,
    pub line_start: Option<usize>,
    pub line_end: Option<usize>,
    pub matched_by: MatchType,
    pub hit_count: Option<usize>,
    pub doc_count: Option<usize>,
    pub folder_path: Option<Seq<char>>,
    pub aggregate_type: Option<Seq<char>>,
    pub doc_type: Option<Seq<char>>,
    pub entry_id: Option<Seq<char>>,
    pub entry_date: Option<Seq<char>>,
    pub entry_created_at: Option<Seq<char>>,
}

impl View for SearchHit {
    type V = SearchHitView;

    open spec fn view(&self) -> SearchHitView {
        SearchHitView {
            file_path: self.file_path@,
            display_name: self.display_name@,
            content: self.content@,
            heading_path: opt_text(self.heading_path),
            section_title: opt_text(self.section_title),
            line_start: self.line_start,
            line_end: self.line_end,
            matched_by: self.matched_by,
            hit_count: self.hit_count,
            doc_count: self.doc_count,
            folder_path: opt_text(self.folder_path),
            aggregate_type: opt_text(self.aggregate_type),
            doc_type: opt_text(self.doc_type),
            entry_id: opt_text(self.entry_id),
            entry_date: opt_text(self.entry_date),
            entry_created_at: opt_text(self.entry_created_at),
        }
    }
}

/// The answer to a search.
#[derive(Debug)]
pub struct SearchResults {
    pub query: String,
    pub results: Vec<SearchHit>,
    /// The number of results.
    pub count: usize,
    pub mode: Option<String>,
    pub aggregate_by: Option<String>,
    /// Set where the index has not been built.
    pub index_missing: Option<bool>,
    pub error: Option<String>,
}

impl SearchResults {
    /// An answer without results.
    pub fn empty(query: String) -> (r: SearchResults)
        ensures
            r.query == query,
            r.results@.len() == 0,
            r.count == 0,
            r.mode is None,
            r.aggregate_by is None,
            r.index_missing is None,
            r.error is None,
    {
        SearchResults {
            query,
            results: Vec::new(),
            count: 0,
            mode: None,
            aggregate_by: None,
            index_missing: None,
            error: None,
        }
    }

    /// An answer that reports `error`.
    pub fn with_error(query: String, error: String) -> (r: SearchResults)
        ensures
            r.query == query,
            r.results@.len() == 0,
            r.count == 0,
            r.mode is None,
            r.aggregate_by is None,
            r.index_missing is None,
            r.error == Some(error),
    {
        SearchResults {
            query,
            results: Vec::new(),
            count: 0,
            mode: None,
            aggregate_by: None,
            index_missing: None,
            error: Some(error),
        }
    }

    /// An answer that reports that there is no index yet.
    pub fn index_not_built(query: String) -> (r: SearchResults)
        ensures
            r.query == query,
            r.results@.len() == 0,
            r.count == 0,
            r.mode is None,
            r.aggregate_by is None,
            r.index_missing == Some(true),
            r.error is None,
    {
        SearchResults {
            query,
            results: Vec::new(),
            count: 0,
            mode: None,
            aggregate_by: None,
            index_missing: Some(true),
            error: None,
        }
    }
}


} // verus!
