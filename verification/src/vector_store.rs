//! What is decided around the vector store: which table action an
//! operation needs, the predicate that removes a file's chunks, the
//! columns of a chunk, and the search hit that a stored row stands for.
//! The store itself is driven elsewhere.

use crate::search_error::SearchError;
use crate::text::{
    chars_of, copy_of, ends_with, last_index_of, rfind_char, same_chars, slice_of, string_of,
};
use crate::types::{opt_text, Chunk, MatchType, SearchHit, SearchHitView};
use vstd::prelude::*;

verus! {

/// The name of the table that holds the chunks.
pub fn table_name() -> (name: &'static str)
    ensures
        name@ == "chunks"@,
{
    "chunks"
}

/// `text` with every single quote doubled.
pub open spec fn quotes_doubled(text: Seq<char>) -> Seq<char>
    decreases text.len(),
{
    if text.len() == 0 {
        Seq::empty()
    } else if text.last() == '\'' {
        quotes_doubled(text.drop_last()) + seq!['\'', '\'']
    } else {
        quotes_doubled(text.drop_last()).push(text.last())
    }
}

/// The predicate that selects the chunks of the file `file_path`.
pub open spec fn file_predicate(file_path: Seq<char>) -> Seq<char> {
    "file_path = '"@ + quotes_doubled(file_path) + "'"@
}

/// The predicate that selects the chunks of the file `file_path`.
pub fn delete_predicate(file_path: &str) -> (predicate: String)
    ensures
        predicate@ == file_predicate(file_path@),
{
    let path = chars_of(file_path);
    let mut out = chars_of("file_path = '");
    let ghost head = out@;
    let mut i: usize = 0;
    assert(path@.subrange(0, 0) =~= Seq::<char>::empty());
    assert(out@ =~= head + quotes_doubled(path@.subrange(0, 0)));
    while i < path.len()
        invariant
            i <= path.len(),
            out@ == head + quotes_doubled(path@.subrange(0, i as int)),
        decreases path.len() - i,
    {
        assert(path@.subrange(0, i + 1).drop_last() =~= path@.subrange(0, i as int));
        let ghost prev = quotes_doubled(path@.subrange(0, i as int));
        if path[i] == '\'' {
            out.push('\'');
            out.push('\'');
            assert(out@ =~= head + (prev + seq!['\'', '\'']));
        } else {
            out.push(path[i]);
            assert(out@ =~= head + prev.push(path@[i as int]));
        }
        i = i + 1;
    }
    assert(path@.subrange(0, path.len() as int) =~= path@);
    out.push('\'');
    proof {
        reveal_strlit("'");
        assert("'"@ =~= seq!['\'']);
        assert(out@ =~= head + quotes_doubled(path@) + "'"@);
    }
    string_of(&out)
}

/// `text`, unless it is empty: an empty value in an optional column
/// stands for no value.
pub open spec fn present(text: Option<String>) -> Option<Seq<char>> {
    match text {
        Some(t) => if t@.len() > 0 {
            Some(t@)
        } else {
            None
        },
        None => None,
    }
}

/// `text`, unless it is empty.
fn keep_present(text: &Option<String>) -> (r: Option<String>)
    ensures
        opt_text(r) == present(*text),
{
    match text {
        Some(t) => {
            if t.as_str().unicode_len() > 0 {
                Some(t.clone())
            } else {
                None
            }
        },
        None => None,
    }
}

/// `text` without every `.md` at its end.
pub open spec fn without_md(text: Seq<char>) -> Seq<char>
    decreases text.len(),
{
    if seq!['.', 'm', 'd'].is_suffix_of(text) {
        without_md(text.subrange(0, text.len() - 3))
    } else {
        text
    }
}

/// The file name of `file_path` without `.md`.
pub open spec fn base_name(file_path: Seq<char>) -> Seq<char> {
    without_md(
        file_path.subrange(last_index_of(file_path, '/') + 1, file_path.len() as int),
    )
}

/// The name under which a chunk is shown: for an idea its title, else
/// its heading path, else the file name; for all else the file name.
pub open spec fn shown_name(
    file_path: Seq<char>,
    doc_type: Option<Seq<char>>,
    section_title: Option<Seq<char>>,
    heading_path: Option<Seq<char>>,
) -> Seq<char> {
    if doc_type == Some("idea"@) {
        match section_title {
            Some(title) => title,
            None => match heading_path {
                Some(path) => path,
                None => base_name(file_path),
            },
        }
    } else {
        base_name(file_path)
    }
}

/// The file name of `file_path` without `.md`.
fn base_name_chars(file_path: &Vec<char>) -> (r: Vec<char>)
    ensures
        r@ == base_name(file_path@),
{
    proof {
        crate::paths::lemma_last_index_of(file_path@, '/');
    }
    let name = match rfind_char(file_path, '/') {
        Some(i) => slice_of(file_path, i + 1, file_path.len()),
        None => copy_of(file_path),
    };
    let suffix = vec!['.', 'm', 'd'];
    assert(suffix@ =~= seq!['.', 'm', 'd']);
    let mut end: usize = name.len();
    assert(name@.subrange(0, name.len() as int) =~= name@);
    while end >= 3 && ends_with(&slice_of(&name, 0, end), &suffix)
        invariant
            end <= name.len(),
            suffix@ == seq!['.', 'm', 'd'],
            without_md(name@) == without_md(name@.subrange(0, end as int)),
        decreases end,
    {
        assert(name@.subrange(0, end as int).subrange(0, end - 3) =~= name@.subrange(0, end - 3));
        end = end - 3;
    }
    slice_of(&name, 0, end)
}

/// The name under which a chunk is shown, as [`shown_name`] says.
pub fn display_name(
    file_path: &str,
    doc_type: &Option<String>,
    section_title: &Option<String>,
    heading_path: &Option<String>,
) -> (name: String)
    ensures
        name@ == shown_name(
            file_path@,
            opt_text(*doc_type),
            opt_text(*section_title),
            opt_text(*heading_path),
        ),
{
    let idea = match doc_type {
        Some(kind) => same_chars(&chars_of(kind.as_str()), &chars_of("idea")),
        None => false,
    };
    if idea {
        match section_title {
            Some(title) => {
                return title.clone();
            },
            None => {},
        }
        match heading_path {
            Some(path) => {
                return path.clone();
            },
            None => {},
        }
    }
    string_of(&base_name_chars(&chars_of(file_path)))
}

/// The values of one stored row. An optional column that the table lacks
/// is `None`.
#[derive(Debug)]
pub struct StoredRow {
    pub file_path: String,
    pub content: String,
    pub heading_path: Option<String>,
    pub section_title: Option<String>,
    pub doc_type: Option<String>,
    pub entry_id: Option<String>,
    pub entry_date: Option<String>,
    pub entry_created_at: Option<String>,
    pub line_start: Option<i64>,
    pub line_end: Option<i64>,
}

/// A line number of a stored row; a negative number is no line number.
pub open spec fn line_of(value: Option<i64>) -> Option<usize> {
    match value {
        Some(v) => if 0 <= v <= usize::MAX {
            Some(v as usize)
        } else {
            None
        },
        None => None,
    }
}

/// A line number of a stored row.
fn line_number(value: Option<i64>) -> (r: Option<usize>)
    ensures
        r == line_of(value),
{
    match value {
        Some(v) => {
            if v >= 0 && (v as u64) <= usize::MAX as u64 {
                Some(v as usize)
            } else {
                None
            }
        },
        None => None,
    }
}

/// The search hit that `row` stands for. Empty values of optional
/// columns count as absent; the counts and marks of aggregated results
/// are left open.
pub open spec fn hit_of(row: StoredRow, matched_by: MatchType) -> SearchHitView {
    SearchHitView {
        file_path: row.file_path@,
        display_name: shown_name(
            row.file_path@,
            present(row.doc_type),
            present(row.section_title),
            present(row.heading_path),
        ),
        content: row.content@,
        heading_path: present(row.heading_path),
        section_title: present(row.section_title),
        line_start: line_of(row.line_start),
        line_end: line_of(row.line_end),
        matched_by,
        hit_count: None,
        doc_count: None,
        folder_path: None,
        aggregate_type: None,
        doc_type: present(row.doc_type),
        entry_id: present(row.entry_id),
        entry_date: present(row.entry_date),
        entry_created_at: present(row.entry_created_at),
    }
}

/// The search hit that `row` stands for, as [`hit_of`] says.
pub fn hit_from_row(row: &StoredRow, matched_by: MatchType) -> (hit: SearchHit)
    ensures
        hit@ == hit_of(*row, matched_by),
{
    let heading_path = keep_present(&row.heading_path);
    let section_title = keep_present(&row.section_title);
    let doc_type = keep_present(&row.doc_type);
    let name = display_name(row.file_path.as_str(), &doc_type, &section_title, &heading_path);
    SearchHit {
        file_path: row.file_path.clone(),
        display_name: name,
        content: row.content.clone(),
        heading_path,
        section_title,
        line_start: line_number(row.line_start),
        line_end: line_number(row.line_end),
        matched_by,
        hit_count: None,
        doc_count: None,
        folder_path: None,
        aggregate_type: None,
        doc_type,
        entry_id: keep_present(&row.entry_id),
        entry_date: keep_present(&row.entry_date),
        entry_created_at: keep_present(&row.entry_created_at),
    }
}

/// The column values of one chunk, in the order of the table's columns.
/// An absent optional value is stored as the empty text.
#[derive(Debug)]
pub struct ChunkColumns {
    pub id: String,
    pub file_path: String,
    pub content: String,
    pub heading_path: String,
    pub section_title: String,
    pub doc_type: String,
    pub entry_id: String,
    pub entry_date: String,
    pub entry_created_at: String,
    pub chunk_index: u32,
}

/// The text that is stored for an optional value.
pub open spec fn stored_text(text: Option<String>) -> Seq<char> {
    match text {
        Some(t) => t@,
        None => Seq::empty(),
    }
}

/// The text that is stored for an optional value.
fn text_to_store(text: &Option<String>) -> (r: String)
    ensures
        r@ == stored_text(*text),
{
    match text {
        Some(t) => t.clone(),
        None => String::new(),
    }
}

/// The column values of `chunk`. The position is stored in 32 bits;
/// of a larger one the low 32 bits are kept.
pub fn chunk_columns(chunk: &Chunk) -> (c: ChunkColumns)
    ensures
        c.id@ == chunk.id@,
        c.file_path@ == chunk.file_path@,
        c.content@ == chunk.content@,
        c.heading_path@ == chunk.heading_path@,
        c.section_title@ == stored_text(chunk.section_title),
        c.doc_type@ == stored_text(chunk.doc_type),
        c.entry_id@ == stored_text(chunk.entry_id),
        c.entry_date@ == stored_text(chunk.entry_date),
        c.entry_created_at@ == stored_text(chunk.entry_created_at),
        c.chunk_index as int == chunk.chunk_index as int % 0x1_0000_0000,
{
    ChunkColumns {
        id: chunk.id.clone(),
        file_path: chunk.file_path.clone(),
        content: chunk.content.clone(),
        heading_path: chunk.heading_path.clone(),
        section_title: text_to_store(&chunk.section_title),
        doc_type: text_to_store(&chunk.doc_type),
        entry_id: text_to_store(&chunk.entry_id),
        entry_date: text_to_store(&chunk.entry_date),
        entry_created_at: text_to_store(&chunk.entry_created_at),
        chunk_index: ((chunk.chunk_index as u64) % 0x1_0000_0000) as u32,
    }
}

/// What an upsert asks of the table.
#[derive(Debug, Clone, Copy, PartialEq, Eq, Structural)]
pub enum UpsertPlan {
    /// There is nothing to store.
    Nothing,
    /// The table is made from the batch.
    CreateTable,
    /// The batch is added to the table.
    Append,
}

/// What is known of the vector store: whether it is connected, and
/// whether its table is open.
#[derive(Debug)]
pub struct VectorStore {
    db_path: String,
    dimensions: usize,
    connected: bool,
    table_open: bool,
}

impl VectorStore {
    /// Whether the store is connected.
    pub closed spec fn connected(&self) -> bool {
        self.connected
    }

    /// Whether the table is open.
    pub closed spec fn table_open(&self) -> bool {
        self.table_open
    }

    /// The length of the vectors that the table holds.
    pub closed spec fn dims(&self) -> usize {
        self.dimensions
    }

    /// Where the store is kept.
    pub closed spec fn location(&self) -> Seq<char> {
        self.db_path@
    }

    /// A store at `db_path` for vectors of length `dimensions`, not yet
    /// connected.
    pub fn new(db_path: String, dimensions: usize) -> (s: VectorStore)
        ensures
            !s.connected(),
            !s.table_open(),
            s.dims() == dimensions,
            s.location() == db_path@,
    {
        VectorStore { db_path, dimensions, connected: false, table_open: false }
    }

    /// Where the store is kept.
    pub fn db_path(&self) -> (p: &String)
        ensures
            p@ == self.location(),
    {
        &self.db_path
    }

    /// The length of the vectors that the table holds.
    pub fn dimensions(&self) -> (n: usize)
        ensures
            n == self.dims(),
    {
        self.dimensions
    }

    /// Takes note that the store is connected. The table is open where
    /// the store holds one.
    pub fn initialize(&mut self, table_found: bool)
        ensures
            final(self).connected(),
            final(self).table_open() == table_found,
            final(self).dims() == old(self).dims(),
            final(self).location() == old(self).location(),
    {
        self.connected = true;
        self.table_open = table_found;
    }

    /// Whether there is an index: the table is open.
    pub fn table_exists(&self) -> (b: bool)
        ensures
            b == self.table_open(),
    {
        self.table_open
    }

    /// What an upsert of `count` chunks asks of the table. An empty
    /// batch asks for nothing, whatever the state; any other needs a
    /// connected store and makes the table where there is none.
    pub fn upsert(&mut self, count: usize) -> (r: Result<UpsertPlan, SearchError>)
        ensures
            final(self).connected() == old(self).connected(),
            final(self).dims() == old(self).dims(),
            final(self).location() == old(self).location(),
            match r {
                Ok(plan) => {
                    &&& plan == if count == 0 {
                        UpsertPlan::Nothing
                    } else if old(self).table_open() {
                        UpsertPlan::Append
                    } else {
                        UpsertPlan::CreateTable
                    }
                    &&& count > 0 ==> old(self).connected()
                    &&& final(self).table_open() == (old(self).table_open() || count > 0)
                },
                Err(e) => {
                    &&& count > 0
                    &&& !old(self).connected()
                    &&& final(self).table_open() == old(self).table_open()
                    &&& e matches SearchError::VectorStore(m)
                    &&& m@ == "Database not initialized"@
                },
            },
    {
        if count == 0 {
            return Ok(UpsertPlan::Nothing);
        }
        if !self.connected {
            return Err(SearchError::VectorStore("Database not initialized".to_owned()));
        }
        if self.table_open {
            Ok(UpsertPlan::Append)
        } else {
            self.table_open = true;
            Ok(UpsertPlan::CreateTable)
        }
    }

    /// The hits of a search, given the rows that the table handed back
    /// for the query, nearest first: one hit for each row, in their order.
    /// Without a table there is no index to search.
    pub fn search(&self, rows: &Vec<StoredRow>) -> (r: Result<Vec<SearchHit>, SearchError>)
        ensures
            match r {
                Ok(hits) => {
                    &&& self.table_open()
                    &&& hits.len() == rows.len()
                    &&& forall|i: int|
                        0 <= i < hits.len() ==> (#[trigger] hits@[i])@ == hit_of(
                            rows@[i],
                            MatchType::Vector,
                        )
                },
                Err(e) => !self.table_open() && e is IndexNotBuilt,
            },
    {
        if !self.table_open {
            return Err(SearchError::IndexNotBuilt);
        }
        let mut hits: Vec<SearchHit> = Vec::new();
        let mut i: usize = 0;
        while i < rows.len()
            invariant
                i <= rows.len(),
                hits.len() == i,
                forall|k: int|
                    0 <= k < i ==> (#[trigger] hits@[k])@ == hit_of(rows@[k], MatchType::Vector),
            decreases rows.len() - i,
        {
            hits.push(hit_from_row(&rows[i], MatchType::Vector));
            i = i + 1;
        }
        Ok(hits)
    }

    /// The predicate with which the chunks of `file_path` are removed;
    /// none where there is no table, and so nothing to remove.
    pub fn delete_by_file(&self, file_path: &str) -> (r: Option<String>)
        ensures
            match r {
                Some(predicate) => self.table_open() && predicate@ == file_predicate(file_path@),
                None => !self.table_open(),
            },
    {
        if self.table_open {
            Some(delete_predicate(file_path))
        } else {
            None
        }
    }

    /// Whether a reset has a table to drop. It needs a connected store;
    /// afterwards no table is open.
    pub fn reset(&mut self) -> (r: Result<bool, SearchError>)
        ensures
            final(self).connected() == old(self).connected(),
            final(self).dims() == old(self).dims(),
            final(self).location() == old(self).location(),
            match r {
                Ok(drop_table) => {
                    &&& old(self).connected()
                    &&& drop_table == old(self).table_open()
                    &&& !final(self).table_open()
                },
                Err(e) => {
                    &&& !old(self).connected()
                    &&& final(self).table_open() == old(self).table_open()
                    &&& e matches SearchError::VectorStore(m)
                    &&& m@ == "Database not initialized"@
                },
            },
    {
        if !self.connected {
            return Err(SearchError::VectorStore("Database not initialized".to_owned()));
        }
        let drop_table = self.table_open;
        self.table_open = false;
        Ok(drop_table)
    }

    /// The number of chunks, given what the table reports: nothing where
    /// there is no table.
    pub fn count(&self, rows_in_table: usize) -> (n: usize)
        ensures
            n == if self.table_open() {
                rows_in_table
            } else {
                0
            },
    {
        if self.table_open {
            rows_in_table
        } else {
            0
        }
    }

    /// The hits that stand for all stored rows, for a keyword ranker:
    /// none where there is no table.
    pub fn get_all_chunks(&self, rows: &Vec<StoredRow>) -> (hits: Vec<SearchHit>)
        ensures
            hits.len() == if self.table_open() {
                rows.len()
            } else {
                0
            },
            forall|i: int|
                0 <= i < hits.len() ==> (#[trigger] hits@[i])@ == hit_of(
                    rows@[i],
                    MatchType::Keyword,
                ),
    {
        let mut hits: Vec<SearchHit> = Vec::new();
        if !self.table_open {
            return hits;
        }
        let mut i: usize = 0;
        while i < rows.len()
            invariant
                i <= rows.len(),
                hits.len() == i,
                forall|k: int|
                    0 <= k < i ==> (#[trigger] hits@[k])@ == hit_of(rows@[k], MatchType::Keyword),
            decreases rows.len() - i,
        {
            hits.push(hit_from_row(&rows[i], MatchType::Keyword));
            i = i + 1;
        }
        hits
    }
}

} // verus!
