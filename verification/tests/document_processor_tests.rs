use financial_rag::clock::Timestamp;
use financial_rag::document_processor::{
    format_for_extension, Chunk, DocumentProcessor, ExtractError, TextFormat,
};

fn at() -> Timestamp {
    Timestamp { seconds: 1_700_000_000, nanos: 5 }
}

fn texts(chunks: &[Chunk]) -> Vec<&str> {
    chunks.iter().map(|c| c.text.as_str()).collect()
}

#[test]
fn extension_selects_format() {
    assert_eq!(format_for_extension("pdf"), TextFormat::Pdf);
    assert_eq!(format_for_extension("html"), TextFormat::Html);
    assert_eq!(format_for_extension("htm"), TextFormat::Html);
    assert_eq!(format_for_extension("txt"), TextFormat::Plain);
    assert_eq!(format_for_extension(""), TextFormat::Plain);
    assert_eq!(format_for_extension("PDF"), TextFormat::Plain);
}

#[test]
fn chunks_overlap_by_the_configured_number_of_words() {
    let p = DocumentProcessor::new(4, 2);
    let chunks = p.chunk_text_at("w1 w2 w3 w4 w5 w6 w7 w8", "doc.txt", at());
    assert_eq!(texts(&chunks), vec!["w1 w2 w3 w4", "w3 w4 w5 w6", "w5 w6 w7 w8", "w7 w8"]);
    for (i, c) in chunks.iter().enumerate() {
        assert_eq!(c.index, i);
        assert_eq!(c.id, format!("doc.txt_{}", i));
        assert_eq!(c.source, "doc.txt");
        assert_eq!(c.created_at, at());
    }
}

#[test]
fn chunks_cover_every_word() {
    let p = DocumentProcessor::new(3, 1);
    let text = "a b c d e f g h i j";
    let chunks = p.chunk_text_at(text, "s", at());
    let mut seen: Vec<&str> = Vec::new();
    for c in &chunks {
        for w in c.text.split_whitespace() {
            if !seen.contains(&w) {
                seen.push(w);
            }
        }
        assert!(c.text.split_whitespace().count() <= 3);
    }
    assert_eq!(seen, text.split_whitespace().collect::<Vec<_>>());
}

#[test]
fn short_text_makes_one_chunk() {
    let p = DocumentProcessor::new(800, 150);
    let chunks = p.chunk_text_at("Apple Inc. annual report", "apple_10k.txt", at());
    assert_eq!(chunks.len(), 1);
    assert_eq!(chunks[0].text, "Apple Inc. annual report");
    assert_eq!(chunks[0].section, "Header/Overview");
}

#[test]
fn empty_text_makes_no_chunks() {
    let p = DocumentProcessor::new(800, 150);
    assert!(p.chunk_text_at("", "a", at()).is_empty());
    assert!(p.chunk_text_at(" \n\t", "a", at()).is_empty());
}

#[test]
fn overlap_not_below_size_keeps_only_the_first_chunk() {
    let p = DocumentProcessor::new(2, 5);
    let chunks = p.chunk_text_at("a b c d e", "s", at());
    assert_eq!(texts(&chunks), vec!["a b"]);
}

#[test]
fn zero_chunk_size_makes_one_empty_chunk() {
    let p = DocumentProcessor::new(0, 0);
    let chunks = p.chunk_text_at("a b c", "s", at());
    assert_eq!(texts(&chunks), vec![""]);
    assert_eq!(chunks[0].section, "Header/Overview");
}

#[test]
fn later_chunks_without_heading_are_body() {
    let p = DocumentProcessor::new(2, 0);
    let chunks = p.chunk_text_at("alpha beta gamma delta", "s", at());
    assert_eq!(chunks[0].section, "Header/Overview");
    assert_eq!(chunks[1].section, "Body");
}

#[test]
fn section_heading_is_found_in_chunk() {
    let p = DocumentProcessor::new(800, 150);
    let chunks = p.chunk_text_at("PART I Item 1A. Risk Factors", "s", at());
    assert_eq!(chunks[0].section, "PART I");
    let chunks = p.chunk_text_at("see item 7 management discussion", "s", at());
    assert_eq!(chunks[0].section, "item 7");
    let chunks = p.chunk_text_at("Overview Item 1A. Risk Factors", "s", at());
    assert_eq!(chunks[0].section, "Item 1A.");
}

#[test]
fn chunk_text_stamps_the_current_time() {
    let p = DocumentProcessor::new(1, 0);
    let chunks = p.chunk_text("x y", "s");
    assert_eq!(chunks.len(), 2);
    assert_eq!(chunks[0].created_at, chunks[1].created_at);
    assert!(chunks[0].created_at.seconds > 1_600_000_000);
}

#[test]
fn clean_text_collapses_white_space() {
    let p = DocumentProcessor::new(800, 150);
    assert_eq!(p.clean_text("  Net   income\n\n rose \t ").unwrap(), "Net income rose");
    assert_eq!(p.clean_text("").unwrap(), "");
}

#[test]
fn strip_html_keeps_only_visible_text() {
    let p = DocumentProcessor::new(800, 150);
    let html = "<html><head><style>p { color: red; }</style><script type=\"text/javascript\">var x = 1;</script></head><body><p>Revenue&nbsp;grew</p>\n<div>by 8%</div></body></html>";
    assert_eq!(p.strip_html(html).unwrap(), "Revenue grew by 8%");
}

#[test]
fn extract_text_by_format() {
    let p = DocumentProcessor::new(800, 150);
    assert_eq!(p.extract_text(TextFormat::Plain, "  raw\ttext ").unwrap(), "  raw\ttext ");
    assert_eq!(p.extract_text(TextFormat::Pdf, "  pdf\n text ").unwrap(), "pdf text");
    assert_eq!(p.extract_text(TextFormat::Html, "<b>bold</b> move").unwrap(), "bold move");
    let e: Result<String, ExtractError> = Ok(String::new());
    assert!(e.is_ok());
}
