//! Markdown to blocks, heading paths and content hashes.

use localdb_core::block::{Block, BlockKind, BlockLocation};
use localdb_core::ids::content_hash;
use localdb_core::markdown_assembler::blocks_from_events;
use localdb_core::markdown_blocks::{
    compute_blocks_hash, extract_frontmatter, heading_path_from_blocks, markdown_fits,
    markdown_to_blocks, markdown_to_blocks_with_pages, try_markdown_to_blocks,
    try_markdown_to_blocks_with_pages,
};
use localdb_core::markdown_events::{ElementTag, MarkdownEvent};

#[test]
fn markdown_to_blocks_basic() {
    let md = "\
# Introduction

This is the first paragraph.

## Setup

Install with `cargo install localdb`.

```rust
fn main() {}
```

- Item one
- Item two

> A blockquote here.
";

    let blocks = markdown_to_blocks(md);
    assert_eq!(
        blocks.len(),
        6,
        "expected 6 blocks (h1, text, h2, text, code, text), got {}: {:?}",
        blocks.len(),
        blocks.iter().map(|b| b.kind.kind_str()).collect::<Vec<_>>()
    );

    for (i, b) in blocks.iter().enumerate() {
        assert_eq!(b.seq, i as u32, "seq mismatch at position {}", i);
    }

    let h1 = blocks
        .iter()
        .find(|b| matches!(&b.kind, BlockKind::Heading { level: 1 }));
    assert!(h1.is_some(), "expected an h1 heading");
    assert_eq!(h1.unwrap().text, "Introduction");

    let h2 = blocks
        .iter()
        .find(|b| matches!(&b.kind, BlockKind::Heading { level: 2 }));
    assert!(h2.is_some(), "expected an h2 heading");
    assert_eq!(h2.unwrap().text, "Setup");

    let code = blocks
        .iter()
        .find(|b| matches!(&b.kind, BlockKind::Code { .. }));
    assert!(code.is_some(), "expected a code block");
    let code_b = code.unwrap();
    if let BlockKind::Code { language } = &code_b.kind {
        assert_eq!(language.as_deref(), Some("rust"));
    }

    let list_text = blocks
        .iter()
        .find(|b| b.kind == BlockKind::Text && b.text.contains("Item one"));
    assert!(
        list_text.is_some(),
        "expected a Text block containing the list"
    );
    assert!(
        list_text.unwrap().text.contains("A blockquote here."),
        "list and blockquote should fold into the same Text block: {:?}",
        list_text.unwrap().text
    );

    let text_blocks: Vec<_> = blocks
        .iter()
        .filter(|b| b.kind == BlockKind::Text)
        .collect();
    assert_eq!(
        text_blocks.len(),
        3,
        "expected 3 Text blocks: {:?}",
        text_blocks.iter().map(|b| &b.text).collect::<Vec<_>>()
    );
}

#[test]
fn heading_path_from_blocks_basic() {
    let md = "# Top\n\n## Sub\n\nSome text.\n\n### Deep\n\nDeep text.\n";
    let blocks = markdown_to_blocks(md);

    assert_eq!(heading_path_from_blocks(&blocks, 0), Vec::<String>::new());

    let para_seq = blocks
        .iter()
        .find(|b| b.kind == BlockKind::Text)
        .map(|b| b.seq)
        .unwrap();
    let path = heading_path_from_blocks(&blocks, para_seq);
    assert!(
        path.contains(&"Top".to_string()),
        "path should contain Top; got {:?}",
        path
    );

    let deep_text_seq = blocks
        .iter()
        .rev()
        .find(|b| b.kind == BlockKind::Text)
        .map(|b| b.seq)
        .unwrap();
    let deep_path = heading_path_from_blocks(&blocks, deep_text_seq);
    assert!(deep_path.contains(&"Top".to_string()));
    assert!(deep_path.contains(&"Sub".to_string()));
    assert!(deep_path.contains(&"Deep".to_string()));
}

#[test]
fn heading_path_resets_on_new_parent() {
    let md = "# A\n\n## A1\n\n# B\n\nContent.\n";
    let blocks = markdown_to_blocks(md);

    let content_seq = blocks
        .iter()
        .find(|b| b.kind == BlockKind::Text)
        .map(|b| b.seq)
        .unwrap();
    let _path = heading_path_from_blocks(&blocks, content_seq);

    let paras: Vec<_> = blocks
        .iter()
        .filter(|b| b.kind == BlockKind::Text)
        .collect();
    let last_para = paras.last().unwrap();
    let path = heading_path_from_blocks(&blocks, last_para.seq);
    assert_eq!(
        path,
        vec!["B".to_string()],
        "after # B, path must be just [B]; got {:?}",
        path
    );
}

#[test]
fn consecutive_running_text_folds_into_one_text_block() {
    let md = "\
Para one.

Para two.

Para three.

- List item

> Quote line
";
    let blocks = markdown_to_blocks(md);
    assert_eq!(
        blocks.len(),
        1,
        "expected a single Text block, got {}: {:?}",
        blocks.len(),
        blocks.iter().map(|b| b.kind.kind_str()).collect::<Vec<_>>()
    );
    assert_eq!(blocks[0].kind, BlockKind::Text);
    let text = &blocks[0].text;
    assert!(text.contains("Para one."), "missing para one: {text}");
    assert!(text.contains("Para two."), "missing para two: {text}");
    assert!(text.contains("Para three."), "missing para three: {text}");
    assert!(text.contains("List item"), "missing list item: {text}");
    assert!(text.contains("Quote line"), "missing quote line: {text}");
    assert!(
        text.contains("\n\n"),
        "expected \\n\\n separators between folded elements: {text}"
    );
}

#[test]
fn heading_breaks_text_run_into_separate_blocks() {
    let md = "# H\n\npara1\n\n## H2\n\npara2\n";
    let blocks = markdown_to_blocks(md);
    assert_eq!(
        blocks.len(),
        4,
        "expected h1, text(para1), h2, text(para2); got {}: {:?}",
        blocks.len(),
        blocks.iter().map(|b| b.kind.kind_str()).collect::<Vec<_>>()
    );
    assert!(matches!(blocks[0].kind, BlockKind::Heading { level: 1 }));
    assert_eq!(blocks[1].kind, BlockKind::Text);
    assert_eq!(blocks[1].text, "para1");
    assert!(matches!(blocks[2].kind, BlockKind::Heading { level: 2 }));
    assert_eq!(blocks[3].kind, BlockKind::Text);
    assert_eq!(blocks[3].text, "para2");

    assert_ne!(blocks[1].text, blocks[3].text);
    assert!(blocks[0].seq < blocks[1].seq);
    assert!(blocks[1].seq < blocks[2].seq);
    assert!(blocks[2].seq < blocks[3].seq);
}

#[test]
fn code_block_breaks_text_run_into_separate_blocks() {
    let md = "para1\n\n```\ncode\n```\n\npara2\n";
    let blocks = markdown_to_blocks(md);
    let kinds: Vec<&str> = blocks.iter().map(|b| b.kind.kind_str()).collect();
    assert_eq!(
        kinds,
        vec!["text", "code", "text"],
        "expected Text, Code, Text; got {:?}",
        kinds
    );
    assert_eq!(blocks[0].text, "para1");
    assert_eq!(blocks[2].text, "para2");
}

#[test]
fn heading_path_resolves_across_coarse_text_blocks() {
    let md = "# A\n\nIntro under A.\n\n## B\n\nText under B.\n\n### C\n\nText under C.\n";
    let blocks = markdown_to_blocks(md);

    let text_blocks: Vec<_> = blocks
        .iter()
        .filter(|b| b.kind == BlockKind::Text)
        .collect();
    assert_eq!(
        text_blocks.len(),
        3,
        "expected 3 Text blocks: {:?}",
        text_blocks
    );

    let intro = blocks.iter().find(|b| b.text == "Intro under A.").unwrap();
    assert_eq!(
        heading_path_from_blocks(&blocks, intro.seq),
        vec!["A".to_string()]
    );

    let under_b = blocks.iter().find(|b| b.text == "Text under B.").unwrap();
    assert_eq!(
        heading_path_from_blocks(&blocks, under_b.seq),
        vec!["A".to_string(), "B".to_string()]
    );

    let under_c = blocks.iter().find(|b| b.text == "Text under C.").unwrap();
    assert_eq!(
        heading_path_from_blocks(&blocks, under_c.seq),
        vec!["A".to_string(), "B".to_string(), "C".to_string()]
    );
}

#[test]
fn frontmatter_detected() {
    let md = "---\ntitle: Hello\nauthor: Bob\n---\n\n# Content\n\nText here.\n";
    let blocks = markdown_to_blocks(md);
    assert!(!blocks.is_empty());
    let fm = &blocks[0];
    assert!(
        matches!(&fm.kind, BlockKind::Frontmatter { format } if format == "yaml"),
        "first block should be frontmatter; got {:?}",
        fm.kind
    );
    assert!(fm.text.contains("title: Hello"));

    let heading = blocks
        .iter()
        .find(|b| matches!(&b.kind, BlockKind::Heading { .. }));
    assert!(
        heading.is_some(),
        "heading should be parsed after frontmatter"
    );
}

#[test]
fn no_frontmatter_when_absent() {
    let md = "# Just a heading\n\nSome text.\n";
    let blocks = markdown_to_blocks(md);
    assert!(!blocks.is_empty());
    assert!(
        !matches!(&blocks[0].kind, BlockKind::Frontmatter { .. }),
        "should not detect frontmatter when absent"
    );
}

#[test]
fn table_block() {
    let md = "| A | B |\n|---|---|\n| 1 | 2 |\n| 3 | 4 |\n";
    let blocks = markdown_to_blocks(md);
    let table = blocks
        .iter()
        .find(|b| matches!(&b.kind, BlockKind::Table { .. }));
    assert!(table.is_some(), "expected a table block");
    let table_b = table.unwrap();
    if let BlockKind::Table { headers, rows } = &table_b.kind {
        assert_eq!(headers, &vec!["A".to_string(), "B".to_string()]);
        assert_eq!(*rows, 2, "expected 2 data rows");
    }
    assert_eq!(
        table_b.text, "| A | B |\n| --- | --- |\n| 1 | 2 |\n| 3 | 4 |",
        "table text must be reconstructed pipe-syntax Markdown"
    );
}

#[test]
fn table_block_text_is_reparseable_markdown() {
    let md = "| Name | Notes |\n|---|---|\n| `a\\|b` | uses *pipes* |\n| c | d |\n";
    let blocks = markdown_to_blocks(md);
    let table_b = blocks
        .iter()
        .find(|b| matches!(&b.kind, BlockKind::Table { .. }))
        .expect("expected a table block");
    let lines: Vec<&str> = table_b.text.lines().collect();
    assert_eq!(lines.len(), 4, "header + separator + 2 rows: {lines:?}");
    assert!(lines[0].starts_with('|') && lines[0].ends_with('|'));
    assert_eq!(lines[1], "| --- | --- |");
    assert!(
        lines[2].contains("a\\|b"),
        "pipe inside a cell must be re-escaped: {}",
        lines[2]
    );

    for line in &lines {
        let cells = line.replace("\\|", "\u{0}").matches('|').count();
        assert_eq!(cells, 3, "expected 2 cells per line: {line}");
    }
}

#[test]
fn empty_markdown_produces_no_blocks() {
    let blocks = markdown_to_blocks("");
    assert!(blocks.is_empty());
}

#[test]
fn all_heading_levels() {
    let md = "# H1\n## H2\n### H3\n#### H4\n##### H5\n###### H6\n";
    let blocks = markdown_to_blocks(md);
    let heading_levels: Vec<u8> = blocks
        .iter()
        .filter_map(|b| {
            if let BlockKind::Heading { level } = &b.kind {
                Some(*level)
            } else {
                None
            }
        })
        .collect();
    assert_eq!(heading_levels, vec![1, 2, 3, 4, 5, 6]);
}

#[test]
fn heading_path_no_headings() {
    let md = "Just plain text, no headings.";
    let blocks = markdown_to_blocks(md);
    let path = heading_path_from_blocks(&blocks, 10);
    assert!(path.is_empty());
}

#[test]
fn html_block_not_silently_dropped() {
    let md = "# Before\n\n<div>raw HTML content</div>\n\nAfter paragraph.\n";
    let blocks = markdown_to_blocks(md);
    let has_html = blocks.iter().any(|b| b.text.contains("raw HTML content"));
    assert!(has_html, "HTML block must not be silently dropped");

    assert_eq!(
        blocks.len(),
        2,
        "expected heading + one merged Text block, got {}: {:?}",
        blocks.len(),
        blocks.iter().map(|b| b.kind.kind_str()).collect::<Vec<_>>()
    );
    assert!(matches!(blocks[0].kind, BlockKind::Heading { level: 1 }));
    assert_eq!(blocks[1].kind, BlockKind::Text);
    assert!(blocks[1].text.contains("After paragraph."));
}

#[test]
fn with_pages_empty_equals_markdown_to_blocks() {
    let samples = [
        "# H1\n\npara1\n\n## H2\n\npara2\n",
        "---\ntitle: x\n---\n\n# C\n\ntext\n",
        "| A | B |\n|---|---|\n| 1 | 2 |\n",
        "para\n\n```rust\nfn f(){}\n```\n\nmore\n",
        "",
    ];
    for md in samples {
        assert_eq!(
            markdown_to_blocks_with_pages(md, &[]),
            markdown_to_blocks(md),
            "empty page_starts must match plain markdown_to_blocks for {md:?}"
        );
    }
}

#[test]
fn blocks_stamped_with_correct_page() {
    let md = "# One\n\nAlpha body.\n\n# Two\n\nBravo body.\n\n# Three\n\nCharlie body.\n";
    let p2 = md.find("# Two").unwrap();
    let p3 = md.find("# Three").unwrap();
    let page_starts = vec![(0usize, 1u32), (p2, 2u32), (p3, 3u32)];

    let blocks = markdown_to_blocks_with_pages(md, &page_starts);
    let page_of = |needle: &str| {
        blocks
            .iter()
            .find(|b| b.text.contains(needle))
            .and_then(|b| b.location.as_ref())
            .and_then(|l| l.page)
    };
    assert_eq!(page_of("One"), Some(1));
    assert_eq!(page_of("Alpha body."), Some(1));
    assert_eq!(page_of("Two"), Some(2));
    assert_eq!(page_of("Bravo body."), Some(2));
    assert_eq!(page_of("Three"), Some(3));
    assert_eq!(page_of("Charlie body."), Some(3));
}

#[test]
fn block_spanning_page_boundary_takes_first_byte_page() {
    let md = "First paragraph on page one.\n\nSecond paragraph on page two.\n";
    let boundary = md.find("Second").unwrap();
    let page_starts = vec![(0usize, 1u32), (boundary, 2u32)];

    let blocks = markdown_to_blocks_with_pages(md, &page_starts);
    assert_eq!(blocks.len(), 1, "both paragraphs fold into one Text block");
    assert_eq!(blocks[0].kind, BlockKind::Text);
    assert!(blocks[0].text.contains("Second paragraph"));
    assert_eq!(
        blocks[0].location.as_ref().and_then(|l| l.page),
        Some(1),
        "the crossing block takes the page of its first byte"
    );
}

#[test]
fn offset_before_first_page_start_uses_first_page() {
    let md = "Intro line.\n\n# Heading\n\nBody.\n";

    let heading = md.find("# Heading").unwrap();
    let page_starts = vec![(heading, 5u32), (md.find("Body").unwrap(), 6u32)];

    let blocks = markdown_to_blocks_with_pages(md, &page_starts);
    let intro = blocks.iter().find(|b| b.text.contains("Intro")).unwrap();
    assert_eq!(
        intro.location.as_ref().and_then(|l| l.page),
        Some(5),
        "content before the first page start attributes to the first page"
    );
}

#[test]
fn blocks_hash_changes_with_page() {
    let block = |page: Option<u32>| Block {
        seq: 0,
        kind: BlockKind::Text,
        text: "Identical body text.".to_string(),
        location: page.map(|p| BlockLocation {
            page: Some(p),
            ..Default::default()
        }),
    };
    let h1 = compute_blocks_hash(&[block(Some(1))]);
    let h2 = compute_blocks_hash(&[block(Some(2))]);
    assert_ne!(h1, h2, "moving a block to a new page must change the hash");
}

#[test]
fn blocks_hash_unchanged_without_page() {
    let paged = Block {
        seq: 0,
        kind: BlockKind::Text,
        text: "Body.".to_string(),
        location: Some(BlockLocation {
            page: None,
            ..Default::default()
        }),
    };
    let no_loc = Block {
        seq: 0,
        kind: BlockKind::Text,
        text: "Body.".to_string(),
        location: None,
    };

    assert_eq!(
        compute_blocks_hash(&[paged]),
        compute_blocks_hash(&[no_loc])
    );
    assert_eq!(
        compute_blocks_hash(&[no_loc_block("Body.")]),
        content_hash("text:Body.")
    );
}

fn no_loc_block(text: &str) -> Block {
    Block {
        seq: 0,
        kind: BlockKind::Text,
        text: text.to_string(),
        location: None,
    }
}

#[test]
fn frontmatter_detected_with_crlf() {
    let md = "---\r\ntitle: Hello\r\n---\r\n\r\n# Content\r\n";
    let blocks = markdown_to_blocks(md);
    assert!(!blocks.is_empty());
    assert!(
        matches!(&blocks[0].kind, BlockKind::Frontmatter { format } if format == "yaml"),
        "first block should be CRLF frontmatter; got {:?}",
        blocks[0].kind
    );
    assert!(blocks[0].text.contains("title: Hello"));
}

fn event(e: MarkdownEvent, at: usize) -> (MarkdownEvent, usize) {
    (e, at)
}

#[test]
fn events_assemble_without_a_parser() {
    let events = vec![
        event(MarkdownEvent::Start(ElementTag::Heading(2), None), 0),
        event(MarkdownEvent::Text("Title".to_string()), 3),
        event(MarkdownEvent::End(ElementTag::Heading(2)), 0),
        event(MarkdownEvent::Start(ElementTag::Paragraph, None), 10),
        event(MarkdownEvent::Text("one".to_string()), 10),
        event(MarkdownEvent::SoftBreak, 13),
        event(MarkdownEvent::Text("two".to_string()), 14),
        event(MarkdownEvent::End(ElementTag::Paragraph), 10),
        event(
            MarkdownEvent::Start(ElementTag::CodeBlock, Some(" rust ".to_string())),
            20,
        ),
        event(MarkdownEvent::Text("x".to_string()), 25),
        event(MarkdownEvent::End(ElementTag::CodeBlock), 20),
    ];
    let blocks = blocks_from_events(Some("a: 1".to_string()), events, 100, &[(0, 1), (115, 2)]);
    let kinds: Vec<&BlockKind> = blocks.iter().map(|b| &b.kind).collect();
    assert_eq!(
        kinds,
        vec![
            &BlockKind::Frontmatter {
                format: "yaml".to_string()
            },
            &BlockKind::Heading { level: 2 },
            &BlockKind::Text,
            &BlockKind::Code {
                language: Some("rust".to_string())
            },
        ]
    );
    let texts: Vec<&str> = blocks.iter().map(|b| b.text.as_str()).collect();
    assert_eq!(texts, vec!["a: 1", "Title", "one two", "x"]);
    let pages: Vec<Option<u32>> = blocks
        .iter()
        .map(|b| b.location.and_then(|l| l.page))
        .collect();
    assert_eq!(pages, vec![Some(1), Some(1), Some(1), Some(2)]);
    let seqs: Vec<u32> = blocks.iter().map(|b| b.seq).collect();
    assert_eq!(seqs, vec![0, 1, 2, 3]);
}

#[test]
fn lists_and_quotes_gather_their_paragraphs() {
    let blocks = markdown_to_blocks("- a\n\n- b\n\n> q1\n>\n> q2\n");
    assert_eq!(blocks.len(), 1);
    assert_eq!(blocks[0].kind, BlockKind::Text);
    assert!(blocks[0].text.contains("q1"));
    assert!(blocks[0].text.contains("q2"));
}

#[test]
fn images_are_blocks_even_without_text() {
    let blocks = markdown_to_blocks("![](pic.png)\n");
    let image = blocks.iter().find(|b| b.kind.kind_str() == "image").unwrap();
    assert_eq!(
        image.kind,
        BlockKind::Image {
            alt: None,
            src: Some("pic.png".to_string())
        }
    );
    assert_eq!(image.text, "");
    let blocks = markdown_to_blocks("![alt text](pic.png)\n");
    let image = blocks.iter().find(|b| b.kind.kind_str() == "image").unwrap();
    assert_eq!(
        image.kind,
        BlockKind::Image {
            alt: Some("alt text".to_string()),
            src: Some("pic.png".to_string())
        }
    );
}

#[test]
fn tables_escape_pipes_and_pad_rows() {
    let blocks = markdown_to_blocks("| a | b |\n| --- | --- |\n| x \\| y |\n");
    assert_eq!(blocks.len(), 1);
    assert_eq!(
        blocks[0].text,
        "| a | b |\n| --- | --- |\n| x \\| y |  |"
    );
    assert_eq!(
        blocks[0].kind,
        BlockKind::Table {
            headers: vec!["a".to_string(), "b".to_string()],
            rows: 1
        }
    );
}

#[test]
fn frontmatter_edges() {
    assert_eq!(
        extract_frontmatter("---\na: 1\n---"),
        (Some("a: 1".to_string()), "")
    );
    assert_eq!(
        extract_frontmatter("---\na: 1\n---\r"),
        (Some("a: 1".to_string()), "")
    );
    assert_eq!(
        extract_frontmatter("---\na: 1\n---\nrest"),
        (Some("a: 1".to_string()), "rest")
    );
    assert_eq!(extract_frontmatter("---\na: 1\n"), (None, "---\na: 1\n"));
    assert_eq!(extract_frontmatter("--- x\n"), (None, "--- x\n"));
    assert_eq!(
        extract_frontmatter("---\na: 1\n---x"),
        (None, "---\na: 1\n---x")
    );
}

#[test]
fn pages_count_from_the_start_of_the_whole_text() {
    let md = "---\nt: ü\n---\nFirst.\n\n# Second\n";
    let start = md.find("# Second").unwrap();
    let blocks = markdown_to_blocks_with_pages(md, &[(0, 1), (start, 2)]);
    let pages: Vec<Option<u32>> = blocks
        .iter()
        .map(|b| b.location.and_then(|l| l.page))
        .collect();
    assert_eq!(pages, vec![Some(1), Some(1), Some(2)]);
}

#[test]
fn ordinary_texts_fit() {
    let md = "# T\n\nbody\n";
    assert!(markdown_fits(md));
    assert_eq!(try_markdown_to_blocks(md), Some(markdown_to_blocks(md)));
    assert_eq!(
        try_markdown_to_blocks_with_pages(md, &[(0, 4)]),
        Some(markdown_to_blocks_with_pages(md, &[(0, 4)]))
    );
}

#[test]
fn heading_path_takes_every_earlier_heading() {
    let heading = |seq: u32, level: u8, text: &str| Block {
        seq,
        kind: BlockKind::Heading { level },
        text: text.to_string(),
        location: None,
    };
    let blocks = vec![heading(5, 1, "late"), heading(0, 3, "deep"), heading(1, 9, "six")];
    assert_eq!(
        heading_path_from_blocks(&blocks, 2),
        vec!["", "", "deep", "", "", "six"]
    );
    assert_eq!(heading_path_from_blocks(&blocks, 6), vec!["late", "", "deep", "", "", "six"]);
}

#[test]
fn content_hash_is_blake3_in_hex() {
    assert_eq!(
        content_hash(""),
        "af1349b9f5f9a1a6a0404dea36dcc9499bcb25c9adc112b7cc9a93cae41f3262"
    );
}

#[test]
fn pages_change_nothing_but_locations() {
    let text = "---\na: b\n---\n# H\n\ntext\n\n- x\n- y\n\n| a |\n|---|\n| 1 |\n\n<p>z</p>\n";
    let plain = markdown_to_blocks(text);
    for pages in [vec![], vec![(0, 1)], vec![(0, 1), (15, 2), (30, 7)]] {
        let paged = markdown_to_blocks_with_pages(text, &pages);
        assert_eq!(paged.len(), plain.len());
        for (a, b) in plain.iter().zip(&paged) {
            assert_eq!((a.seq, &a.kind, &a.text), (b.seq, &b.kind, &b.text));
            assert_eq!(b.location.is_some(), !pages.is_empty());
        }
    }
}
