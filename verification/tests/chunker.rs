use ccore::memory::chunker::{chunk_markdown, chunk_text, header_level, ChunkConfig};

#[test]
fn test_header_level_detection() {
    assert_eq!(header_level("# Title"), Some(1));
    assert_eq!(header_level("## Section"), Some(2));
    assert_eq!(header_level("### Subsection"), Some(3));
    assert_eq!(header_level("#### Deep"), Some(4));
    assert_eq!(header_level("#hashtag"), None);
    assert_eq!(header_level("not a header"), None);
    assert_eq!(header_level(""), None);
    assert_eq!(header_level("##"), Some(2));
}

#[test]
fn test_chunk_empty_content() {
    let config = ChunkConfig::default();
    let chunks = chunk_markdown("", &config);
    assert!(chunks.is_empty());
}

#[test]
fn test_chunk_small_content_single_chunk() {
    let config = ChunkConfig::default();
    let content = "# Title\n\nSome text here.";
    let chunks = chunk_markdown(content, &config);
    assert_eq!(chunks.len(), 1);
    assert_eq!(chunks[0].content, content);
    assert_eq!(chunks[0].start_line, 0);
}

#[test]
fn test_chunk_splits_on_headers() {
    let config = ChunkConfig {
        max_chunk_chars: 80,
        overlap_lines: 0,
        min_heading_level: 2,
    };
    let content = "## Section 1\n\nContent for section 1 goes here with enough text to matter.\n\n\
                    ## Section 2\n\nContent for section 2 is also significant enough to be a chunk.";
    let chunks = chunk_markdown(content, &config);
    assert!(
        chunks.len() >= 2,
        "should split into at least 2 chunks, got {}",
        chunks.len()
    );
    assert!(chunks[0].content.contains("Section 1"));
    assert!(chunks.last().unwrap().content.contains("Section 2"));
}

#[test]
fn test_chunk_header_context_for_subsections() {
    let config = ChunkConfig {
        max_chunk_chars: 60,
        overlap_lines: 0,
        min_heading_level: 2,
    };
    let content = "## Parent\n\nIntro.\n\n### Child\n\nChild content that is long enough to be its own chunk definitely.";
    let chunks = chunk_markdown(content, &config);
    let child_chunk = chunks.iter().find(|c| c.content.contains("Child content"));
    assert!(child_chunk.is_some(), "should have a child chunk");
    assert!(
        child_chunk.unwrap().content.contains("[Context: ## Parent]"),
        "child chunk should have parent header context, got: {}",
        child_chunk.unwrap().content
    );
}

#[test]
fn test_chunk_large_section_splits_on_paragraphs() {
    let para1 = "A".repeat(100);
    let para2 = "B".repeat(100);
    let content = format!("## Big Section\n\n{para1}\n\n{para2}");
    let config = ChunkConfig {
        max_chunk_chars: 150,
        overlap_lines: 0,
        min_heading_level: 2,
    };
    let chunks = chunk_markdown(&content, &config);
    assert!(
        chunks.len() >= 2,
        "should split large section, got {} chunks",
        chunks.len()
    );
}

#[test]
fn test_chunk_no_headings() {
    let config = ChunkConfig {
        max_chunk_chars: 50,
        overlap_lines: 0,
        min_heading_level: 2,
    };
    let content = "Line one is here.\nLine two is here.\nLine three is here.\nLine four is here.";
    let chunks = chunk_markdown(content, &config);
    assert!(!chunks.is_empty());
}

#[test]
fn test_chunk_very_long_line() {
    let config = ChunkConfig {
        max_chunk_chars: 50,
        overlap_lines: 0,
        min_heading_level: 2,
    };
    let long_line = "A".repeat(200);
    let content = format!("## Header\n\n{long_line}");
    let chunks = chunk_markdown(&content, &config);
    assert!(!chunks.is_empty());
}

#[test]
fn test_chunk_text_simple() {
    let chunks = chunk_text("Line 1\nLine 2\nLine 3\nLine 4", 20, 0);
    assert!(!chunks.is_empty());
    let total_lines: usize = chunks.iter().map(|c| c.content.lines().count()).sum();
    assert!(total_lines >= 4, "should cover all 4 lines");
}

#[test]
fn test_chunk_text_empty() {
    let chunks = chunk_text("", 100, 0);
    assert!(chunks.is_empty());
}

#[test]
fn test_chunk_preserves_code_blocks() {
    let config = ChunkConfig::default();
    let content = "## Code\n\n```rust\nfn main() {\n    println!(\"hello\");\n}\n```\n\nSome text.";
    let chunks = chunk_markdown(content, &config);
    assert_eq!(chunks.len(), 1);
    assert!(chunks[0].content.contains("```rust"));
    assert!(chunks[0].content.contains("fn main()"));
}

#[test]
fn test_chunk_heading_path_inheritance() {
    let config = ChunkConfig {
        max_chunk_chars: 60,
        overlap_lines: 0,
        min_heading_level: 2,
    };
    let content = "## Architecture\n\nSome intro.\n\n### Database\n\nDB content here is important.\n\n#### Schema\n\nSchema details.";
    let chunks = chunk_markdown(content, &config);
    let schema_chunk = chunks.iter().find(|c| c.content.contains("Schema details"));
    if let Some(chunk) = schema_chunk {
        assert!(
            chunk.heading_path.contains("Architecture"),
            "Schema chunk should have Architecture in heading path"
        );
    }
}

#[test]
fn test_chunk_overlap_lines() {
    let config = ChunkConfig {
        max_chunk_chars: 80,
        overlap_lines: 2,
        min_heading_level: 2,
    };
    let para1 = "X".repeat(60);
    let para2 = "Y".repeat(60);
    let content = format!("## Section\n\n{para1}\n\n{para2}");
    let chunks = chunk_markdown(&content, &config);
    assert!(
        chunks.len() >= 2,
        "should split into multiple chunks, got {}",
        chunks.len()
    );
}

#[test]
fn text_chunks_are_cut_at_lines() {
    let chunks = chunk_text("Line 1\nLine 2\nLine 3\nLine 4", 20, 0);
    let texts: Vec<&str> = chunks.iter().map(|c| c.content.as_str()).collect();
    assert_eq!(texts.concat().replace('\n', ""), "Line 1Line 2Line 3Line 4");
    for chunk in &chunks {
        assert!(chunk.content.len() <= 20);
        assert!(chunk.start_line < chunk.end_line);
    }
}

#[test]
fn text_chunks_stay_within_the_limit_with_overlap() {
    let chunks = chunk_text("aaaaaaaaaa\nbbbbbbbbbb\ncccccccccc", 25, 2);
    let spans: Vec<(usize, usize)> = chunks.iter().map(|c| (c.start_line, c.end_line)).collect();
    assert_eq!(spans, vec![(0, 2), (1, 3)]);
    for chunk in &chunks {
        assert!(chunk.content.chars().count() <= 25);
    }
}

#[test]
fn markdown_chunks_overlap_by_lines() {
    let config = ChunkConfig { max_chunk_chars: 80, overlap_lines: 2, min_heading_level: 2 };
    let text = format!("## Section\n\n{}\n\n{}", "X".repeat(60), "Y".repeat(60));
    let chunks = chunk_markdown(&text, &config);
    let spans: Vec<(usize, usize)> = chunks.iter().map(|c| (c.start_line, c.end_line)).collect();
    assert_eq!(spans, vec![(0, 4), (2, 5)]);
    for line in text.lines().filter(|l| !l.trim().is_empty()) {
        assert!(chunks.iter().any(|c| c.content.contains(line.trim())));
    }
}
