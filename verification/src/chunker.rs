//! Markdown chunking. A document is read as a stream of markdown events;
//! text gathers under the current trail of headings and is handed out as
//! chunks: at every heading, whenever it grows beyond the limit, and at
//! the end. Sizes count characters, never bytes.

use crate::split::{overlap_start, split_chars, split_point, split_text};
use crate::text::{
    chars_of, count_char, count_chars, is_blank, is_blank_chars, is_space, join, join_chars,
    lemma_trimmed_empty_iff_blank, push_all, string_of, trim_chars, trimmed, views,
};
use crate::types::{text_chunk_views, TextChunk, TextChunkView};
use pulldown_cmark::{Event, Parser, Tag, TagEnd};
use vstd::prelude::*;

verus! {

/// What the chunker reads of a markdown event.
#[derive(Debug)]
pub enum MdEvent {
    /// A heading of the given level, 1 to 6, begins.
    HeadingStart(u8),
    /// The heading that began last is complete.
    HeadingEnd,
    /// Literal text.
    Text(String),
    /// An inline code span, without its backticks.
    Code(String),
    SoftBreak,
    HardBreak,
    ParagraphEnd,
    /// A list item is complete.
    ItemEnd,
    /// Anything that carries no text for a chunk.
    Other,
}

/// An [`MdEvent`] as a mathematical value.
pub ghost enum MdEventView {
    HeadingStart(u8),
    HeadingEnd,
    Text(Seq<char>),
    Code(Seq<char>),
    SoftBreak,
    HardBreak,
    ParagraphEnd,
    ItemEnd,
    Other,
}

impl View for MdEvent {
    type V = MdEventView;

    open spec fn view(&self) -> MdEventView {
        match self {
            MdEvent::HeadingStart(level) => MdEventView::HeadingStart(*level),
            MdEvent::HeadingEnd => MdEventView::HeadingEnd,
            MdEvent::Text(t) => MdEventView::Text(t@),
            MdEvent::Code(t) => MdEventView::Code(t@),
            MdEvent::SoftBreak => MdEventView::SoftBreak,
            MdEvent::HardBreak => MdEventView::HardBreak,
            MdEvent::ParagraphEnd => MdEventView::ParagraphEnd,
            MdEvent::ItemEnd => MdEventView::ItemEnd,
            MdEvent::Other => MdEventView::Other,
        }
    }
}

/// The views of a sequence of markdown events.
pub open spec fn md_event_views(events: Seq<MdEvent>) -> Seq<MdEventView> {
    Seq::new(events.len(), |i: int| events[i]@)
}

/// The events that the markdown parser reads from `content`.
pub uninterp spec fn markdown_events(content: Seq<char>) -> Seq<MdEventView>;

/// Runs `pulldown_cmark::Parser::new` over `content`, with no extension
/// switched on, and keeps of each event what the chunker reads. The events
/// are a function of the content alone; nothing more is claimed of them.
#[verifier::external_body]
fn parse_markdown(content: &str) -> (events: Vec<MdEvent>)
    ensures
        md_event_views(events@) == markdown_events(content@),
{
    Parser::new(content).map(|event| match event {
        Event::Start(Tag::Heading { level, .. }) => MdEvent::HeadingStart(level as u8),
        Event::End(TagEnd::Heading(_)) => MdEvent::HeadingEnd,
        Event::Text(text) => MdEvent::Text(text.to_string()),
        Event::Code(code) => MdEvent::Code(code.to_string()),
        Event::SoftBreak => MdEvent::SoftBreak,
        Event::HardBreak => MdEvent::HardBreak,
        Event::End(TagEnd::Paragraph) => MdEvent::ParagraphEnd,
        Event::End(TagEnd::Item) => MdEvent::ItemEnd,
        _ => MdEvent::Other,
    }).collect()
}

/// A chunk shorter than this is joined to the chunk before it.
pub const MIN_CHUNK_CHARS: usize = 50;

/// `a + b`, or the largest `usize` where the sum exceeds it.
pub open spec fn sat_add(a: usize, b: int) -> usize {
    if a + b > usize::MAX {
        usize::MAX
    } else {
        (a + b) as usize
    }
}

/// What the chunker holds between two events.
pub ghost struct ChunkState {
    /// The chunks handed out so far.
    pub chunks: Seq<TextChunkView>,
    /// The open headings, outermost first, each with its level.
    pub headings: Seq<(u8, Seq<char>)>,
    /// The text gathered for the next chunk.
    pub text: Seq<char>,
    /// The line at which the gathered text begins.
    pub start_line: usize,
    /// The line that the parser has reached.
    pub line: usize,
    /// The level of the heading being read, if one is.
    pub level: Option<u8>,
    pub in_heading: bool,
    /// The title of the heading being read.
    pub heading_text: Seq<char>,
}

/// The state before the first event.
pub open spec fn initial_state() -> ChunkState {
    ChunkState {
        chunks: Seq::empty(),
        headings: Seq::empty(),
        text: Seq::empty(),
        start_line: 1,
        line: 1,
        level: None,
        in_heading: false,
        heading_text: Seq::empty(),
    }
}

/// The titles of the open headings joined by ` > `.
pub open spec fn heading_path(headings: Seq<(u8, Seq<char>)>) -> Seq<char> {
    join(headings.map_values(|h: (u8, Seq<char>)| h.1), seq![' ', '>', ' '])
}

/// `headings` without the headings at its end whose level is `level` or deeper.
pub open spec fn closed_to(headings: Seq<(u8, Seq<char>)>, level: u8) -> Seq<(u8, Seq<char>)>
    decreases headings.len(),
{
    if headings.len() > 0 && headings.last().0 >= level {
        closed_to(headings.drop_last(), level)
    } else {
        headings
    }
}

/// The chunk for the gathered text of `s`.
pub open spec fn chunk_of(s: ChunkState, content: Seq<char>) -> TextChunkView {
    TextChunkView {
        content,
        heading_path: heading_path(s.headings),
        start_line: s.start_line,
        end_line: s.line,
    }
}

/// `s` after its gathered text, unless blank, has been handed out trimmed.
pub open spec fn flushed(s: ChunkState) -> ChunkState {
    if is_blank(s.text) {
        s
    } else {
        ChunkState { chunks: s.chunks.push(chunk_of(s, trimmed(s.text))), text: Seq::empty(), ..s }
    }
}

/// `s` after the event `e` has been read, before the size is looked at.
pub open spec fn absorbed(s: ChunkState, e: MdEventView) -> ChunkState {
    match e {
        MdEventView::HeadingStart(level) => ChunkState {
            in_heading: true,
            level: Some(level),
            heading_text: Seq::empty(),
            ..flushed(s)
        },
        MdEventView::HeadingEnd => ChunkState {
            headings: match s.level {
                Some(level) => closed_to(s.headings, level).push((level, trimmed(s.heading_text))),
                None => s.headings,
            },
            in_heading: false,
            level: None,
            heading_text: Seq::empty(),
            start_line: sat_add(s.line, 1),
            ..s
        },
        MdEventView::Text(t) => if s.in_heading {
            ChunkState {
                heading_text: s.heading_text + t,
                line: sat_add(s.line, count_char(t, '\n') as int),
                ..s
            }
        } else {
            ChunkState { text: s.text + t, line: sat_add(s.line, count_char(t, '\n') as int), ..s }
        },
        MdEventView::Code(t) => if s.in_heading {
            ChunkState { heading_text: s.heading_text + t, ..s }
        } else {
            ChunkState { text: s.text + seq!['`'] + t + seq!['`'], ..s }
        },
        MdEventView::SoftBreak | MdEventView::HardBreak => if s.in_heading {
            ChunkState { heading_text: s.heading_text.push(' '), line: sat_add(s.line, 1), ..s }
        } else {
            ChunkState { text: s.text.push('\n'), line: sat_add(s.line, 1), ..s }
        },
        MdEventView::ParagraphEnd => ChunkState { text: s.text + seq!['\n', '\n'], ..s },
        MdEventView::ItemEnd => ChunkState { text: s.text.push('\n'), ..s },
        MdEventView::Other => s,
    }
}

/// `s` after gathered text of more than `max` characters has been cut once.
pub open spec fn overflowed(s: ChunkState, max: usize, overlap: usize) -> ChunkState {
    if s.text.len() > max {
        let (chunk, remainder) = split_text(s.text, max as int, overlap as int);
        ChunkState {
            chunks: s.chunks.push(chunk_of(s, chunk)),
            text: remainder,
            start_line: s.line,
            ..s
        }
    } else {
        s
    }
}

/// `s` after the event `e`.
pub open spec fn stepped(s: ChunkState, e: MdEventView, max: usize, overlap: usize) -> ChunkState {
    overflowed(absorbed(s, e), max, overlap)
}

/// The state after all of `events`.
pub open spec fn state_after(events: Seq<MdEventView>, max: usize, overlap: usize) -> ChunkState
    decreases events.len(),
{
    if events.len() == 0 {
        initial_state()
    } else {
        stepped(state_after(events.drop_last(), max, overlap), events.last(), max, overlap)
    }
}

/// `chunks` after every chunk of fewer than [`MIN_CHUNK_CHARS`] characters
/// has been joined to the chunk before it, behind an empty line. A first
/// chunk stays whatever its size.
pub open spec fn merged(chunks: Seq<TextChunkView>) -> Seq<TextChunkView>
    decreases chunks.len(),
{
    if chunks.len() == 0 {
        Seq::empty()
    } else {
        let before = merged(chunks.drop_last());
        let c = chunks.last();
        if c.content.len() < MIN_CHUNK_CHARS && before.len() > 0 {
            before.update(
                before.len() - 1,
                TextChunkView {
                    content: before.last().content + seq!['\n', '\n'] + c.content,
                    end_line: c.end_line,
                    ..before.last()
                },
            )
        } else {
            before.push(c)
        }
    }
}

/// The chunks of a document with the given events.
pub open spec fn chunks_of(events: Seq<MdEventView>, max: usize, overlap: usize) -> Seq<
    TextChunkView,
> {
    merged(flushed(state_after(events, max, overlap)).chunks)
}

/// Splits markdown documents into chunks.
#[derive(Debug)]
pub struct Chunker {
    /// The size beyond which gathered text is cut, in characters.
    max_chunk_chars: usize,
    /// How many characters a chunk repeats of the chunk before it.
    overlap_chars: usize,
}

/// The exec form of [`ChunkState`].
struct Progress {
    chunks: Vec<TextChunk>,
    headings: Vec<(u8, Vec<char>)>,
    text: Vec<char>,
    start_line: usize,
    line: usize,
    level: Option<u8>,
    in_heading: bool,
    heading_text: Vec<char>,
}

/// The views of the open headings.
pub open spec fn heading_views(headings: Seq<(u8, Vec<char>)>) -> Seq<(u8, Seq<char>)> {
    Seq::new(headings.len(), |i: int| (headings[i].0, headings[i].1@))
}

impl View for Progress {
    type V = ChunkState;

    closed spec fn view(&self) -> ChunkState {
        ChunkState {
            chunks: text_chunk_views(self.chunks@),
            headings: heading_views(self.headings@),
            text: self.text@,
            start_line: self.start_line,
            line: self.line,
            level: self.level,
            in_heading: self.in_heading,
            heading_text: self.heading_text@,
        }
    }
}

/// `a + b`, or the largest `usize` where the sum exceeds it.
fn add_lines(a: usize, b: usize) -> (r: usize)
    ensures
        r == sat_add(a, b as int),
{
    if b > usize::MAX - a {
        usize::MAX
    } else {
        a + b
    }
}

impl Progress {
    /// The titles of the open headings joined by ` > `.
    fn path(&self) -> (r: String)
        ensures
            r@ == heading_path(self@.headings),
    {
        let mut titles: Vec<Vec<char>> = Vec::new();
        let mut i: usize = 0;
        while i < self.headings.len()
            invariant
                i <= self.headings.len(),
                titles.len() == i,
                forall|k: int| 0 <= k < i ==> (#[trigger] titles@[k])@ == self.headings@[k].1@,
            decreases self.headings.len() - i,
        {
            let mut title: Vec<char> = Vec::new();
            push_all(&mut title, &self.headings[i].1);
            titles.push(title);
            i = i + 1;
        }
        assert(views(titles@) =~= self@.headings.map_values(|h: (u8, Seq<char>)| h.1));
        let sep = vec![' ', '>', ' '];
        assert(sep@ =~= seq![' ', '>', ' ']);
        string_of(&join_chars(&titles, &sep))
    }

    /// Hands out `content` as a chunk.
    fn emit(&mut self, content: &Vec<char>)
        ensures
            final(self)@ == (ChunkState {
                chunks: old(self)@.chunks.push(chunk_of(old(self)@, content@)),
                ..old(self)@
            }),
    {
        let chunk = TextChunk {
            content: string_of(content),
            heading_path: self.path(),
            start_line: self.start_line,
            end_line: self.line,
        };
        let ghost before = self@;
        self.chunks.push(chunk);
        assert(self@.chunks =~= before.chunks.push(chunk_of(before, content@)));
        assert(self@.headings =~= before.headings);
    }

    /// Hands out the gathered text, unless it is blank.
    fn flush(&mut self)
        ensures
            final(self)@ == flushed(old(self)@),
    {
        if !is_blank_chars(&self.text) {
            let content = trim_chars(&self.text);
            self.emit(&content);
            let ghost mid = self@;
            self.text = Vec::new();
            assert(self@.text =~= Seq::<char>::empty());
            assert(self@.chunks =~= mid.chunks);
            assert(self@.headings =~= mid.headings);
        }
    }

    /// Closes the open headings of level `level` or deeper.
    fn close_to(&mut self, level: u8)
        ensures
            final(self)@ == (ChunkState {
                headings: closed_to(old(self)@.headings, level),
                ..old(self)@
            }),
    {
        let ghost before = self@;
        while self.headings.len() > 0 && self.headings[self.headings.len() - 1].0 >= level
            invariant
                self@ == (ChunkState { headings: self@.headings, ..before }),
                closed_to(self@.headings, level) == closed_to(before.headings, level),
            decreases self.headings.len(),
        {
            let ghost prev = self@;
            let gone = self.headings.pop();
            assert(self@.headings =~= prev.headings.drop_last());
            assert(self@.chunks =~= prev.chunks);
        }
    }

    /// Reads one event.
    fn absorb(&mut self, event: &MdEvent)
        ensures
            final(self)@ == absorbed(old(self)@, event@),
    {
        let ghost before = self@;
        match event {
            MdEvent::HeadingStart(level) => {
                self.flush();
                let ghost mid = self@;
                self.in_heading = true;
                self.level = Some(*level);
                self.heading_text = Vec::new();
                assert(self@.heading_text =~= Seq::<char>::empty());
                assert(self@.chunks =~= mid.chunks);
                assert(self@.headings =~= mid.headings);
            },
            MdEvent::HeadingEnd => {
                match self.level {
                    Some(level) => {
                        self.close_to(level);
                        let ghost mid = self@;
                        let title = trim_chars(&self.heading_text);
                        self.headings.push((level, title));
                        assert(self@.headings =~= mid.headings.push((level, title@)));
                        assert(self@.chunks =~= mid.chunks);
                    },
                    None => {},
                }
                let ghost mid = self@;
                self.in_heading = false;
                self.level = None;
                self.heading_text = Vec::new();
                self.start_line = add_lines(self.line, 1);
                assert(self@.heading_text =~= Seq::<char>::empty());
                assert(self@.chunks =~= mid.chunks);
                assert(self@.headings =~= mid.headings);
            },
            MdEvent::Text(t) => {
                let chars = chars_of(t.as_str());
                let lines = count_chars(&chars, '\n');
                if self.in_heading {
                    push_all(&mut self.heading_text, &chars);
                } else {
                    push_all(&mut self.text, &chars);
                }
                self.line = add_lines(self.line, lines);
                assert(self@.chunks =~= before.chunks);
                assert(self@.headings =~= before.headings);
            },
            MdEvent::Code(t) => {
                let chars = chars_of(t.as_str());
                if self.in_heading {
                    push_all(&mut self.heading_text, &chars);
                } else {
                    self.text.push('`');
                    push_all(&mut self.text, &chars);
                    self.text.push('`');
                    assert(self@.text =~= before.text + seq!['`'] + t@ + seq!['`']);
                }
                assert(self@.chunks =~= before.chunks);
                assert(self@.headings =~= before.headings);
            },
            MdEvent::SoftBreak | MdEvent::HardBreak => {
                if self.in_heading {
                    self.heading_text.push(' ');
                } else {
                    self.text.push('\n');
                }
                self.line = add_lines(self.line, 1);
                assert(self@.chunks =~= before.chunks);
                assert(self@.headings =~= before.headings);
            },
            MdEvent::ParagraphEnd => {
                self.text.push('\n');
                self.text.push('\n');
                assert(self@.text =~= before.text + seq!['\n', '\n']);
                assert(self@.chunks =~= before.chunks);
                assert(self@.headings =~= before.headings);
            },
            MdEvent::ItemEnd => {
                self.text.push('\n');
                assert(self@.chunks =~= before.chunks);
                assert(self@.headings =~= before.headings);
            },
            MdEvent::Other => {},
        }
    }

    /// Cuts the gathered text once if it has more than `max` characters.
    fn overflow(&mut self, max: usize, overlap: usize)
        ensures
            final(self)@ == overflowed(old(self)@, max, overlap),
    {
        if self.text.len() > max {
            let (chunk, remainder) = split_chars(&self.text, max, overlap);
            self.emit(&chunk);
            let ghost mid = self@;
            self.text = remainder;
            self.start_line = self.line;
            assert(self@.chunks =~= mid.chunks);
            assert(self@.headings =~= mid.headings);
        }
    }
}

impl Default for Chunker {
    /// A chunker with a limit of 1500 characters and an overlap of 200.
    fn default() -> (c: Chunker)
        ensures
            c.max_chars() == 1500,
            c.overlap() == 200,
    {
        Chunker { max_chunk_chars: 1500, overlap_chars: 200 }
    }
}

impl Chunker {
    /// The size beyond which gathered text is cut, in characters.
    pub closed spec fn max_chars(&self) -> usize {
        self.max_chunk_chars
    }

    /// How many characters a chunk repeats of the chunk before it.
    pub closed spec fn overlap(&self) -> usize {
        self.overlap_chars
    }

    /// A chunker with the given limit and overlap, both in characters.
    pub fn new(max_chunk_chars: usize, overlap_chars: usize) -> (c: Chunker)
        ensures
            c.max_chars() == max_chunk_chars,
            c.overlap() == overlap_chars,
    {
        Chunker { max_chunk_chars, overlap_chars }
    }

    /// The chunks of the markdown document `content`.
    pub fn chunk(&self, content: &str, _file_path: &str) -> (chunks: Vec<TextChunk>)
        ensures
            text_chunk_views(chunks@) == chunks_of(
                markdown_events(content@),
                self.max_chars(),
                self.overlap(),
            ),
    {
        let events = parse_markdown(content);
        self.chunk_events(&events)
    }

    /// The chunks of a document that the parser has read as `events`.
    pub fn chunk_events(&self, events: &Vec<MdEvent>) -> (chunks: Vec<TextChunk>)
        ensures
            text_chunk_views(chunks@) == chunks_of(
                md_event_views(events@),
                self.max_chars(),
                self.overlap(),
            ),
    {
        let ghost all = md_event_views(events@);
        let mut state = Progress {
            chunks: Vec::new(),
            headings: Vec::new(),
            text: Vec::new(),
            start_line: 1,
            line: 1,
            level: None,
            in_heading: false,
            heading_text: Vec::new(),
        };
        assert(state@.chunks =~= Seq::<TextChunkView>::empty());
        assert(state@.headings =~= Seq::<(u8, Seq<char>)>::empty());
        assert(all.subrange(0, 0) =~= Seq::<MdEventView>::empty());
        let mut i: usize = 0;
        while i < events.len()
            invariant
                i <= events.len(),
                all == md_event_views(events@),
                state@ == state_after(
                    all.subrange(0, i as int),
                    self.max_chunk_chars,
                    self.overlap_chars,
                ),
            decreases events.len() - i,
        {
            let ghost head = all.subrange(0, i + 1);
            assert(head.drop_last() == all.subrange(0, i as int));
            assert(head.last() == events@[i as int]@);
            state.absorb(&events[i]);
            state.overflow(self.max_chunk_chars, self.overlap_chars);
            i = i + 1;
        }
        assert(all.subrange(0, events.len() as int) =~= all);
        state.flush();
        self.post_process_chunks(state.chunks)
    }

    /// `text` as a chunk and a remainder, as [`split_text`] says. The
    /// chunk of a text that is longer than the limit is never longer
    /// than the limit.
    pub fn split_chunk(&self, text: &str) -> (r: (String, String))
        ensures
            (r.0@, r.1@) == split_text(text@, self.max_chars() as int, self.overlap() as int),
            text@.len() > self.max_chars() ==> r.0@.len() <= self.max_chars(),
    {
        let (chunk, remainder) = split_chars(
            &chars_of(text),
            self.max_chunk_chars,
            self.overlap_chars,
        );
        (string_of(&chunk), string_of(&remainder))
    }

    /// `chunks` after every short chunk has been joined to the chunk
    /// before it, as [`merged`] says.
    pub fn post_process_chunks(&self, chunks: Vec<TextChunk>) -> (out: Vec<TextChunk>)
        ensures
            text_chunk_views(out@) == merged(text_chunk_views(chunks@)),
    {
        let ghost all = text_chunk_views(chunks@);
        let mut out: Vec<TextChunk> = Vec::new();
        let mut i: usize = 0;
        assert(all.subrange(0, 0) =~= Seq::<TextChunkView>::empty());
        assert(text_chunk_views(out@) =~= Seq::<TextChunkView>::empty());
        while i < chunks.len()
            invariant
                i <= chunks.len(),
                all == text_chunk_views(chunks@),
                text_chunk_views(out@) == merged(all.subrange(0, i as int)),
            decreases chunks.len() - i,
        {
            let ghost head = all.subrange(0, i + 1);
            assert(head.drop_last() == all.subrange(0, i as int));
            assert(head.last() == chunks@[i as int]@);
            let ghost prev = text_chunk_views(out@);
            let c = &chunks[i];
            let size = c.content.as_str().unicode_len();
            if size < MIN_CHUNK_CHARS && out.len() > 0 {
                let last = out.pop().unwrap();
                let mut content = last.content;
                content.append("\n\n");
                content.append(c.content.as_str());
                proof {
                    reveal_strlit("\n\n");
                    assert("\n\n"@ =~= seq!['\n', '\n']);
                }
                out.push(
                    TextChunk {
                        content,
                        heading_path: last.heading_path,
                        start_line: last.start_line,
                        end_line: c.end_line,
                    },
                );
                assert(text_chunk_views(out@) =~= merged(head));
            } else {
                out.push(c.clone());
                assert(text_chunk_views(out@) =~= prev.push(chunks@[i as int]@));
            }
            i = i + 1;
        }
        assert(all.subrange(0, chunks.len() as int) =~= all);
        out
    }
}

/// The chunk that is handed out when gathered text is cut never has more
/// characters than the limit.
pub proof fn law_cut_chunk_bounded(s: ChunkState, max: usize, overlap: usize)
    requires
        s.text.len() > max,
    ensures
        overflowed(s, max, overlap).chunks.len() == s.chunks.len() + 1,
        overflowed(s, max, overlap).chunks.last().content.len() <= max,
{
    crate::split::lemma_split_chunk_bounded(s.text, max as int, overlap as int);
}

/// Whether the event `e` brings nothing but white space: it is no code
/// span, and if it is a text, the text is blank.
pub open spec fn is_blank_event(e: MdEventView) -> bool {
    match e {
        MdEventView::Text(t) => is_blank(t),
        MdEventView::Code(_) => false,
        _ => true,
    }
}

/// Whether `s` has gathered nothing but white space and handed out
/// nothing but empty chunks.
pub open spec fn holds_nothing(s: ChunkState) -> bool {
    &&& is_blank(s.text)
    &&& forall|i: int| 0 <= i < s.chunks.len() ==> (#[trigger] s.chunks[i]).content.len() == 0
}

/// Cutting blank text hands out an empty chunk and leaves blank text.
proof fn lemma_blank_split(text: Seq<char>, max: int, overlap: int)
    requires
        is_blank(text),
        0 <= max < text.len(),
        0 <= overlap,
    ensures
        split_text(text, max, overlap).0.len() == 0,
        is_blank(split_text(text, max, overlap).1),
{
    let window = text.subrange(0, max);
    let cut = split_point(window);
    crate::split::lemma_split_point_bound(window);
    if cut >= 0 {
        let head = text.subrange(0, cut);
        let tail = text.subrange(overlap_start(cut, overlap), text.len() as int);
        assert(is_blank(head)) by {
            assert forall|i: int| 0 <= i < head.len() implies is_space(#[trigger] head[i]) by {
                assert(head[i] == text[i]);
            }
        }
        assert(is_blank(tail)) by {
            assert forall|i: int| 0 <= i < tail.len() implies is_space(#[trigger] tail[i]) by {
                assert(tail[i] == text[overlap_start(cut, overlap) + i]);
            }
        }
        lemma_trimmed_empty_iff_blank(head);
        lemma_trimmed_empty_iff_blank(tail);
    } else {
        if window.len() > 0 {
            assert(window.last() == text[max - 1]);
            assert(is_space(window.last()));
        }
        let tail = text.subrange(overlap_start(max, overlap), text.len() as int);
        assert forall|i: int| 0 <= i < tail.len() implies is_space(#[trigger] tail[i]) by {
            assert(tail[i] == text[overlap_start(max, overlap) + i]);
        }
    }
}

/// An event that brings nothing but white space leaves the chunker
/// holding nothing.
proof fn lemma_blank_step(s: ChunkState, e: MdEventView, max: usize, overlap: usize)
    requires
        holds_nothing(s),
        is_blank_event(e),
    ensures
        holds_nothing(stepped(s, e, max, overlap)),
{
    let a = absorbed(s, e);
    assert(a.chunks == s.chunks);
    assert(is_blank(a.text)) by {
        assert forall|i: int| 0 <= i < a.text.len() implies is_space(#[trigger] a.text[i]) by {
            if i < s.text.len() {
                assert(a.text[i] == s.text[i]);
            } else {
                match e {
                    MdEventView::Text(t) => {
                        assert(a.text[i] == t[i - s.text.len()]);
                    },
                    _ => {},
                }
            }
        }
    }
    if a.text.len() > max {
        lemma_blank_split(a.text, max as int, overlap as int);
    }
}

/// Empty chunks are joined into at most one chunk of white space.
proof fn lemma_merged_nothing(chunks: Seq<TextChunkView>)
    requires
        forall|i: int| 0 <= i < chunks.len() ==> (#[trigger] chunks[i]).content.len() == 0,
    ensures
        merged(chunks).len() <= 1,
        chunks.len() == 0 ==> merged(chunks).len() == 0,
        forall|i: int| 0 <= i < merged(chunks).len() ==> is_blank(#[trigger] merged(chunks)[i].content),
    decreases chunks.len(),
{
    if chunks.len() > 0 {
        let front = chunks.drop_last();
        assert forall|i: int| 0 <= i < front.len() implies (#[trigger] front[i]).content.len()
            == 0 by {
            assert(front[i] == chunks[i]);
        }
        lemma_merged_nothing(front);
        assert(chunks.last() == chunks[chunks.len() - 1]);
    }
}

/// A document in which the parser finds nothing but white space has at
/// most one chunk, which holds nothing but white space; it has none unless
/// the white space gathered grew beyond the limit.
pub proof fn law_blank_document(events: Seq<MdEventView>, max: usize, overlap: usize)
    requires
        forall|i: int| 0 <= i < events.len() ==> is_blank_event(#[trigger] events[i]),
    ensures
        holds_nothing(state_after(events, max, overlap)),
        chunks_of(events, max, overlap).len() <= 1,
        forall|i: int|
            0 <= i < chunks_of(events, max, overlap).len() ==> is_blank(
                #[trigger] chunks_of(events, max, overlap)[i].content,
            ),
        state_after(events, max, overlap).chunks.len() == 0 ==> chunks_of(events, max, overlap).len()
            == 0,
    decreases events.len(),
{
    if events.len() > 0 {
        let front = events.drop_last();
        assert forall|i: int| 0 <= i < front.len() implies is_blank_event(#[trigger] front[i]) by {
            assert(front[i] == events[i]);
        }
        law_blank_document(front, max, overlap);
        lemma_blank_step(state_after(front, max, overlap), events.last(), max, overlap);
    }
    lemma_merged_nothing(state_after(events, max, overlap).chunks);
}

/// A document without events has no chunks.
pub proof fn law_no_events_no_chunks(max: usize, overlap: usize)
    ensures
        chunks_of(Seq::empty(), max, overlap) == Seq::<TextChunkView>::empty(),
{
    assert(is_blank(initial_state().text));
}

} // verus!
