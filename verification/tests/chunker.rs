use opencontext_core::chunker::{Chunker, MdEvent, MIN_CHUNK_CHARS};
use opencontext_core::types::TextChunk;

#[test]
fn test_simple_chunk() {
    let chunker = Chunker::default();
    let content = "# Hello\n\nThis is a test.\n\n## Section\n\nMore content here.";
    let chunks = chunker.chunk(content, "test.md");

    assert!(!chunks.is_empty());
}

#[test]
fn test_chinese_content() {
    let chunker = Chunker::new(100, 20);
    let content = "# 标题\n\n这是一段很长的中文内容。我们需要确保在切分时不会切到汉字中间。这对于处理多语言内容非常重要。";
    let chunks = chunker.chunk(content, "test.md");

    // All chunks should be valid UTF-8 (this would panic if we split incorrectly)
    for chunk in &chunks {
        assert!(chunk.content.is_char_boundary(0));
        println!("Chunk: {}", chunk.content);
    }
}

#[test]
fn test_heading_path() {
    let chunker = Chunker::default();
    let content = "# Title\n\n## Section 1\n\nContent 1\n\n### Subsection\n\nContent 2";
    let chunks = chunker.chunk(content, "test.md");

    // Check that heading paths are built correctly
    for chunk in &chunks {
        println!(
            "Chunk: {} | Path: {}",
            chunk.content.chars().take(30).collect::<String>(),
            chunk.heading_path
        );
    }
}

#[test]
fn test_mixed_language() {
    let chunker = Chunker::new(50, 10);
    let content = "Hello 世界！This is a test. 这是测试。Mixed content here 混合内容。";
    let chunks = chunker.chunk(content, "test.md");

    for chunk in &chunks {
        // Verify each chunk is valid UTF-8
        let _ = chunk.content.chars().count();
        println!("Mixed chunk: {}", chunk.content);
    }
}

#[test]
fn test_chunker_basic() {
    let chunker = Chunker::new(500, 50);
    let content = "# Title\n\nThis is a paragraph.\n\n## Section\n\nMore content here.";
    let chunks = chunker.chunk(content, "test.md");

    assert!(!chunks.is_empty(), "Should produce at least one chunk");
    assert!(chunks[0].content.len() > 0, "Chunk should have content");
}

#[test]
fn test_chunker_preserves_heading_path() {
    let chunker = Chunker::new(1000, 100);
    let content = "# Main Title\n\n## Sub Section\n\nContent under subsection.";
    let chunks = chunker.chunk(content, "test.md");

    // Should have heading path
    let has_heading = chunks.iter().any(|c| !c.heading_path.is_empty());
    assert!(has_heading, "Should preserve heading path");
}

#[test]
fn test_chunker_respects_size_limit() {
    let max_size = 500;
    let chunker = Chunker::new(max_size, 50);
    // Use content with natural break points (paragraphs)
    let paragraph = "This is a test paragraph with some content. ";
    let content = paragraph.repeat(50);
    let chunks = chunker.chunk(&content, "test.md");

    // Should produce multiple chunks
    assert!(chunks.len() > 1, "Long content should be split into multiple chunks");

    // Most chunks should be reasonably sized (allow some overflow for edge cases)
    let reasonable_chunks =
        chunks.iter().filter(|c| c.content.chars().count() <= max_size * 3).count();
    assert!(reasonable_chunks >= chunks.len() / 2, "Most chunks should respect size limit");
}

#[test]
fn test_chunker_handles_empty_content() {
    let chunker = Chunker::new(500, 50);
    let chunks = chunker.chunk("", "empty.md");

    // Empty content should produce zero or one empty chunk
    assert!(chunks.len() <= 1);
}

#[test]
fn test_chunker_handles_chinese_text() {
    let chunker = Chunker::new(100, 10);
    let content = "# 中文标题\n\n这是一段中文内容，用于测试分块功能。这段文字包含多个句子。";

    // Should not panic on Chinese text
    let chunks = chunker.chunk(content, "chinese.md");
    assert!(!chunks.is_empty());

    // Verify content is preserved
    let total_content: String = chunks.iter().map(|c| c.content.as_str()).collect();
    assert!(total_content.contains("中文"));
}

#[test]
fn test_chunker_line_numbers() {
    let chunker = Chunker::new(1000, 100);
    let content = "Line 1\nLine 2\nLine 3\nLine 4\nLine 5";
    let chunks = chunker.chunk(content, "lines.md");

    assert!(!chunks.is_empty());
    assert!(chunks[0].start_line >= 1, "Line numbers should be 1-indexed");
}

fn piece(content: &str, start_line: usize, end_line: usize) -> TextChunk {
    TextChunk {
        content: content.to_string(),
        heading_path: "H".to_string(),
        start_line,
        end_line,
    }
}

#[test]
fn unicode_split_gives_whole_characters() {
    let chunker = Chunker::new(50, 10);
    let paragraph = "Hello 世界！This is a test. 这是测试。Mixed content here 混合内容。";
    let content = format!("# T\n\n{paragraph}");
    // the paragraph has 54 characters and is cut after the last sentence end
    // among its first 50
    let (first, rest) = chunker.split_chunk(paragraph);
    assert_eq!(first, "Hello 世界！This is a test. 这是测试。");
    assert_eq!(rest, "est. 这是测试。Mixed content here 混合内容。");
    let chunks = chunker.chunk(&content, "test.md");
    // both pieces are shorter than the smallest chunk, so the second joins the first
    assert_eq!(chunks.len(), 1);
    assert_eq!(chunks[0].content, format!("{first}\n\n{rest}"));
    for chunk in &chunks {
        assert!(std::str::from_utf8(chunk.content.as_bytes()).is_ok());
        assert!(chunk.content.is_char_boundary(0));
        assert!(chunk.content.is_char_boundary(chunk.content.len()));
        assert_eq!(chunk.heading_path, "T");
    }
    // with pieces that are long enough to stand alone there are two chunks
    let long = format!("# T\n\n{}。{}", "前".repeat(60), "后".repeat(60));
    let chunks = Chunker::new(100, 10).chunk(&long, "test.md");
    assert!(chunks.len() >= 2);
    for chunk in &chunks {
        assert!(chunk.content.chars().count() <= 100);
        assert!(std::str::from_utf8(chunk.content.as_bytes()).is_ok());
    }
}

#[test]
fn whitespace_only_input_gives_no_chunk() {
    let chunker = Chunker::new(500, 50);
    assert!(chunker.chunk("   \n\t\n  ", "blank.md").is_empty());
    assert!(chunker.chunk("\n\n\n", "blank.md").is_empty());
    assert!(chunker.chunk_events(&vec![]).is_empty());
    let only_space = vec![MdEvent::Text("  \u{3000} ".to_string()), MdEvent::ParagraphEnd];
    assert!(chunker.chunk_events(&only_space).is_empty());
}

#[test]
fn white_space_beyond_the_limit_gives_at_most_one_blank_chunk() {
    let events = vec![
        MdEvent::Text("   ".to_string()),
        MdEvent::ParagraphEnd,
        MdEvent::HeadingStart(1),
        MdEvent::HeadingEnd,
        MdEvent::Text(" \t ".to_string()),
        MdEvent::SoftBreak,
        MdEvent::ItemEnd,
        MdEvent::ParagraphEnd,
    ];
    for max in [0usize, 1, 2, 3, 4, 100] {
        for overlap in [0usize, 1, 5] {
            let chunks = Chunker::new(max, overlap).chunk_events(&events);
            assert!(chunks.len() <= 1, "{max} {overlap}");
            assert!(chunks.iter().all(|c| c.content.trim().is_empty()), "{max} {overlap}");
        }
    }
    assert!(Chunker::new(100, 0).chunk_events(&events).is_empty());
    // the same input gives the same chunks
    let chunker = Chunker::new(30, 5);
    let text = "# T\n\none two three. four five six, seven eight nine ten eleven twelve";
    let first = chunker.chunk(text, "a.md");
    let second = chunker.chunk(text, "a.md");
    assert!(!first.is_empty());
    assert_eq!(first.len(), second.len());
    for (a, b) in first.iter().zip(second.iter()) {
        assert_eq!(a.content, b.content);
        assert_eq!(a.heading_path, b.heading_path);
        assert_eq!((a.start_line, a.end_line), (b.start_line, b.end_line));
    }
}

#[test]
fn split_chunk_returns_short_text_whole() {
    let chunker = Chunker::new(10, 3);
    assert_eq!(chunker.split_chunk("0123456789"), ("0123456789".to_string(), String::new()));
    assert_eq!(chunker.split_chunk(""), (String::new(), String::new()));
}

#[test]
fn split_chunk_prefers_the_last_paragraph_break() {
    let chunker = Chunker::new(20, 4);
    // the window is "one. two\n\nthree\n\nfou"; the last break is at 15
    let (chunk, rest) = chunker.split_chunk("one. two\n\nthree\n\nfour five six");
    assert_eq!(chunk, "one. two\n\nthree");
    // the remainder begins 4 characters before the cut, trimmed
    assert_eq!(rest, "hree\n\nfour five six");
}

#[test]
fn split_chunk_cuts_after_a_sentence_end() {
    let chunker = Chunker::new(20, 0);
    let (chunk, rest) = chunker.split_chunk("Alpha beta. Gamma delta epsilon zeta");
    assert_eq!(chunk, "Alpha beta.");
    assert_eq!(rest, "Gamma delta epsilon zeta");
}

#[test]
fn split_chunk_cuts_after_the_last_sentence_end_of_any_kind() {
    let chunker = Chunker::new(12, 0);
    // the window is "Hi. Yo! Abcd": "! " ends later than ". "
    let (chunk, rest) = chunker.split_chunk("Hi. Yo! Abcdefghij");
    assert_eq!(chunk, "Hi. Yo!");
    assert_eq!(rest, "Abcdefghij");
    // the ideographic full stop and ". " both occur; ". " ends later
    let (chunk, rest) = chunker.split_chunk("ab\u{3002}cd. efghijklmnop");
    assert_eq!(chunk, "ab\u{3002}cd.");
    assert_eq!(rest, "efghijklmnop");
    // and the other way round
    let (chunk, rest) = chunker.split_chunk("ab. cd\u{3002}efghijklmnop");
    assert_eq!(chunk, "ab. cd\u{3002}");
    assert_eq!(rest, "efghijklmnop");
    // a sentence end that begins inside the window and ends outside it does not count
    let (chunk, rest) = Chunker::new(4, 0).split_chunk("a! b. cdefg");
    assert_eq!(chunk, "a!");
    assert_eq!(rest, "b. cdefg");
}

#[test]
fn split_chunk_cuts_after_a_clause_mark() {
    let chunker = Chunker::new(10, 2);
    let (chunk, rest) = chunker.split_chunk("abc,defghijklmnop");
    assert_eq!(chunk, "abc,");
    assert_eq!(rest, "c,defghijklmnop");
    // the last mark of whatever kind decides
    let (chunk, _) = chunker.split_chunk("a,b\u{ff0c}cdefghijklmnop");
    assert_eq!(chunk, "a,b\u{ff0c}");
    let (chunk, rest) = chunker.split_chunk("a\u{ff0c}b;cdefghijklmnop");
    assert_eq!(chunk, "a\u{ff0c}b;");
    assert_eq!(rest, "b;cdefghijklmnop");
}

#[test]
fn split_chunk_cuts_before_the_last_white_space() {
    let chunker = Chunker::new(10, 0);
    let (chunk, rest) = chunker.split_chunk("abcd efgh ijklmnop");
    assert_eq!(chunk, "abcd efgh");
    assert_eq!(rest, "ijklmnop");
}

#[test]
fn split_chunk_cuts_hard_where_there_is_no_boundary() {
    let chunker = Chunker::new(5, 2);
    let (chunk, rest) = chunker.split_chunk("世界世界世界世界");
    assert_eq!(chunk, "世界世界世");
    assert_eq!(rest, "界世界世界");
    let none = Chunker::new(0, 0);
    assert_eq!(none.split_chunk("ab"), (String::new(), "ab".to_string()));
}

#[test]
fn split_chunk_never_exceeds_the_limit() {
    let texts = [
        "no boundary at all in here".repeat(3),
        "some words, and clauses; here. And sentences! Or not? ".repeat(4),
        "中文，没有空格。只有标点！".repeat(6),
        "para one\n\npara two\n\npara three with a long tail of words".to_string(),
    ];
    for max in [1usize, 2, 7, 20, 33] {
        for overlap in [0usize, 3, 50] {
            let chunker = Chunker::new(max, overlap);
            for text in &texts {
                let (chunk, _) = chunker.split_chunk(text);
                if text.chars().count() > max {
                    assert!(chunk.chars().count() <= max, "{max} {overlap} {text}");
                }
            }
        }
    }
}

#[test]
fn short_chunks_join_the_chunk_before() {
    let chunker = Chunker::default();
    let long = "x".repeat(MIN_CHUNK_CHARS);
    let merged = chunker.post_process_chunks(vec![
        piece("tiny first", 1, 2),
        piece(&long, 3, 4),
        piece("small", 5, 6),
        piece("also small", 7, 9),
    ]);
    assert_eq!(merged.len(), 2);
    // a first chunk stays whatever its size
    assert_eq!(merged[0].content, "tiny first");
    assert_eq!(merged[1].content, format!("{long}\n\nsmall\n\nalso small"));
    assert_eq!(merged[1].start_line, 3);
    assert_eq!(merged[1].end_line, 9);
    assert!(chunker.post_process_chunks(vec![]).is_empty());
}

#[test]
fn chunk_events_follows_headings_and_lines() {
    let chunker = Chunker::new(1000, 0);
    let body = "b".repeat(60);
    let events = vec![
        MdEvent::HeadingStart(1),
        MdEvent::Text(" Top ".to_string()),
        MdEvent::HeadingEnd,
        MdEvent::Text(format!("first {body}")),
        MdEvent::SoftBreak,
        MdEvent::Text("second".to_string()),
        MdEvent::ParagraphEnd,
        MdEvent::HeadingStart(2),
        MdEvent::Text("Sub".to_string()),
        MdEvent::Code("x".to_string()),
        MdEvent::HeadingEnd,
        MdEvent::Code("let a".to_string()),
        MdEvent::Text(format!(" {body}")),
        MdEvent::ItemEnd,
        MdEvent::HeadingStart(2),
        MdEvent::Text("Next".to_string()),
        MdEvent::HeadingEnd,
        MdEvent::Text(format!("tail {body}")),
        MdEvent::Other,
    ];
    let chunks = chunker.chunk_events(&events);
    assert_eq!(chunks.len(), 3);
    assert_eq!(chunks[0].content, format!("first {body}\nsecond"));
    assert_eq!(chunks[0].heading_path, "Top");
    assert_eq!(chunks[0].start_line, 2);
    assert_eq!(chunks[0].end_line, 2);
    assert_eq!(chunks[1].content, format!("`let a` {body}"));
    assert_eq!(chunks[1].heading_path, "Top > Subx");
    assert_eq!(chunks[1].start_line, 3);
    // a heading of the same level takes the place of the one before
    assert_eq!(chunks[2].heading_path, "Top > Next");
    assert_eq!(chunks[2].content, format!("tail {body}"));
}

#[test]
fn chunk_events_cuts_once_per_event_when_text_overflows() {
    let chunker = Chunker::new(10, 0);
    let events = vec![MdEvent::Text("aaaa bbbb cccc dddd".to_string())];
    let chunks = chunker.chunk_events(&events);
    // one cut at the event, the remainder at the end; both are short and join
    assert_eq!(chunks.len(), 1);
    assert_eq!(chunks[0].content, "aaaa bbbb\n\ncccc dddd");
}
