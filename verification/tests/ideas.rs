use opencontext_core::ideas::{parse_idea_entries, parse_idea_marker, split_lines, split_words};
use opencontext_core::model::Doc;
use opencontext_core::references::{
    append_reference_summary, extract_refs, parse_doc_href, reference_summary,
};

fn pair(a: &str, b: &str) -> (String, String) {
    (a.to_string(), b.to_string())
}

fn text(v: &[Vec<char>]) -> Vec<String> {
    v.iter().map(|w| w.iter().collect()).collect()
}

fn chars(s: &str) -> Vec<char> {
    s.chars().collect()
}

fn doc(stable_id: &str, rel_path: &str, name: &str, description: &str) -> Doc {
    Doc {
        id: 1,
        folder_id: 1,
        name: name.to_string(),
        rel_path: rel_path.to_string(),
        abs_path: format!("/r/{rel_path}"),
        description: description.to_string(),
        stable_id: stable_id.to_string(),
        created_at: "t".to_string(),
        updated_at: "t".to_string(),
    }
}

#[test]
fn markers_are_read() {
    assert_eq!(
        parse_idea_marker("[//]: # (idea:id=abc created_at=2024-01-02T03:04:05Z)"),
        Some(pair("abc", "2024-01-02T03:04:05Z"))
    );
    // white space around the line and between the words does not matter
    assert_eq!(
        parse_idea_marker("  [//]: # (  created_at=T   idea:id=x  ) \t"),
        Some(pair("x", "T"))
    );
    // the last of each counts; other words are passed over
    assert_eq!(
        parse_idea_marker("[//]: # (idea:id=a idea:id=b note created_at=1 created_at=2)"),
        Some(pair("b", "2"))
    );
    assert_eq!(parse_idea_marker("[//]: # (idea:id= created_at=)"), Some(pair("", "")));
    for line in [
        "",
        "plain text",
        "[//]: # (idea:id=a)",
        "[//]: # (created_at=1)",
        "[//]: # (idea:id=a created_at=1",
        "[//]: # ()",
        "[//]: #(idea:id=a created_at=1)",
        "x [//]: # (idea:id=a created_at=1)",
        "[//]: # (idea:id=a created_at=1) x",
        "[//]: # (IDEA:ID=a created_at=1)",
    ] {
        assert_eq!(parse_idea_marker(line), None, "{line:?}");
    }
}

#[test]
fn words_and_lines() {
    assert_eq!(text(&split_words(&chars("  a\tbc \u{3000} d\n"))), vec!["a", "bc", "d"]);
    assert!(split_words(&chars(" \n ")).is_empty());
    assert_eq!(text(&split_lines(&chars("a\nb\r\n\nc"))), vec!["a", "b", "", "c"]);
    assert_eq!(text(&split_lines(&chars("a\n"))), vec!["a"]);
    assert_eq!(text(&split_lines(&chars("a\r"))), vec!["a\r"]);
    assert_eq!(text(&split_lines(&chars("\n"))), vec![""]);
    assert!(split_lines(&chars("")).is_empty());
    for s in ["x\ny\r\nz", "\r\n\r\n", "no newline", "tail\n\n", "a\r\rb\r\n"] {
        let expected: Vec<String> = s.lines().map(|l| l.to_string()).collect();
        assert_eq!(text(&split_lines(&chars(s))), expected, "{s:?}");
    }
    for s in ["  a b  c ", "\u{85}x\u{a0}y", "one", ""] {
        let expected: Vec<String> = s.split_whitespace().map(|l| l.to_string()).collect();
        assert_eq!(text(&split_words(&chars(s))), expected, "{s:?}");
    }
}

#[test]
fn entries_are_read() {
    let content = "preface is dropped\n\
        [//]: # (idea:id=one created_at=2024-01-02T03:04:05Z)\n\
        \n  First title  \nbody line\n\n\
        [//]: # (idea:id=two created_at=2024-02-03)\n\
        [//]: # (idea:id=three created_at=x)\r\n\
        only line\r\n";
    let entries = parse_idea_entries(content);
    assert_eq!(entries.len(), 3);
    assert_eq!(entries[0].id, "one");
    assert_eq!(entries[0].created_at, "2024-01-02T03:04:05Z");
    assert_eq!(entries[0].content, "First title  \nbody line");
    assert_eq!(entries[1].id, "two");
    assert_eq!(entries[1].content, "");
    assert_eq!(entries[2].id, "three");
    assert_eq!(entries[2].content, "only line");
    assert!(parse_idea_entries("no marker at all\nnone").is_empty());
    assert!(parse_idea_entries("").is_empty());
}

#[test]
fn links_are_found_by_the_pattern() {
    let refs = extract_refs(
        "See [Spec](oc://doc/abc?path=a%2Fb.md) and [an idea](oc://idea/i1), \
         not [web](https://x.y) nor [](oc://doc/z) but [two\nlines](oc://doc/q).",
    );
    assert_eq!(
        refs,
        vec![
            pair("Spec", "oc://doc/abc?path=a%2Fb.md"),
            pair("an idea", "oc://idea/i1"),
            pair("two\nlines", "oc://doc/q"),
        ]
    );
    assert!(extract_refs("nothing here").is_empty());
    // had the pattern been handed back as the text, there would be no pairs
    assert_eq!(extract_refs("[a](oc://x)"), vec![pair("a", "oc://x")]);
}

#[test]
fn doc_links_are_taken_apart() {
    assert_eq!(parse_doc_href("oc://doc/abc"), (Some("abc".to_string()), None));
    assert_eq!(parse_doc_href("oc://idea/abc"), (None, None));
    assert_eq!(parse_doc_href("oc://doc/"), (None, None));
    assert_eq!(
        parse_doc_href("oc://doc/abc?path=a%2Fb%20c.md"),
        (Some("abc".to_string()), Some("a/b c.md".to_string()))
    );
    assert_eq!(
        parse_doc_href("oc://doc/?x=1&path=p%C3%A9&path=q"),
        (None, Some("pé".to_string()))
    );
    // a parameter without a value, or under another name, is no path
    assert_eq!(parse_doc_href("oc://doc/abc?path"), (Some("abc".to_string()), None));
    assert_eq!(parse_doc_href("oc://doc/abc?xpath=1"), (Some("abc".to_string()), None));
    // bytes that are no UTF-8 give no path
    assert_eq!(parse_doc_href("oc://doc/abc?path=%ff"), (Some("abc".to_string()), None));
    // a repeated opening is dropped as often as it stands there
    assert_eq!(parse_doc_href("oc://doc/oc://doc/abc"), (Some("abc".to_string()), None));
    // the decoder leaves a plus sign alone
    assert_eq!(
        parse_doc_href("oc://doc/a?path=x+y"),
        (Some("a".to_string()), Some("x+y".to_string()))
    );
}

#[test]
fn trailer_lists_the_links() {
    let docs = vec![
        doc("sid-1", "notes/a.md", "a.md", "About A"),
        doc("sid-2", "notes/b.md", "b.md", ""),
        doc("sid-1", "notes/late.md", "late.md", "Later row"),
    ];
    let refs = vec![
        pair("A", "oc://doc/sid-1"),
        pair("B", "oc://doc/unknown?path=notes%2Fb.md"),
        pair("", "oc://doc/sid-2"),
        pair("", "oc://doc/none"),
        pair("Thought", "oc://idea/i9"),
        pair("", "oc://idea/i9"),
        pair("skip", "oc://other/x"),
    ];
    let out = reference_summary("body", &refs, &docs);
    assert_eq!(
        out,
        "body\n\n引用:\n- 文档: A — Later row · notes/late.md\n- 文档: B — notes/b.md\n\
         - 文档: b.md — notes/b.md\n- 文档: 文档\n- 想法: Thought\n- 想法: 想法"
    );
    assert_eq!(reference_summary("body", &vec![], &docs), "body");
    assert_eq!(reference_summary("body", &vec![pair("x", "oc://else")], &docs), "body");
    let text = "An entry with [A](oc://doc/sid-2) inside.";
    assert_eq!(
        append_reference_summary(text, &docs),
        format!("{text}\n\n引用:\n- 文档: A — notes/b.md")
    );
    assert_eq!(append_reference_summary("no links", &docs), "no links");
}
