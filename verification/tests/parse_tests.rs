use creb::content::{RenderableBlock, RenderableChapter};
use creb::processor::{
    blocks_from_events, fallback_processing, preprocess_html, process_chapter_html, Attr,
    MarkupEvent,
};

fn blocks(chapter: &RenderableChapter) -> &Vec<RenderableBlock> {
    &chapter.blocks
}

#[test]
fn parses_headings_and_paragraphs_in_order() {
    let chapter = process_chapter_html(
        "<h1>Chapter 1</h1><p>This is a paragraph.</p><h2>Section 1</h2><p>Another paragraph.</p>",
    );
    let b = blocks(&chapter);
    assert_eq!(b.len(), 4);
    assert_eq!(b[0], RenderableBlock::Heading(1, "Chapter 1".to_string()));
    assert_eq!(
        b[1],
        RenderableBlock::Paragraph("This is a paragraph.".to_string())
    );
    assert_eq!(b[2], RenderableBlock::Heading(2, "Section 1".to_string()));
    assert_eq!(
        b[3],
        RenderableBlock::Paragraph("Another paragraph.".to_string())
    );
}

#[test]
fn plain_text_falls_back_to_single_paragraph() {
    let chapter = process_chapter_html("This is plain text without HTML tags.");
    let b = blocks(&chapter);
    assert_eq!(b.len(), 1);
    assert_eq!(
        b[0],
        RenderableBlock::Paragraph("This is plain text without HTML tags.".to_string())
    );
}

#[test]
fn empty_input_yields_one_empty_paragraph() {
    let chapter = process_chapter_html("");
    let b = blocks(&chapter);
    assert_eq!(b.len(), 1);
    assert_eq!(b[0], RenderableBlock::Paragraph(String::new()));
}

#[test]
fn doctype_and_xml_declaration_are_stripped() {
    let chapter = process_chapter_html(
        "<?xml version=\"1.0\" encoding=\"utf-8\"?><!DOCTYPE html><html><p>Hi</p></html>",
    );
    let b = blocks(&chapter);
    assert_eq!(b.len(), 1);
    assert_eq!(b[0], RenderableBlock::Paragraph("Hi".to_string()));
}

#[test]
fn preprocess_removes_doctype_then_declaration() {
    let out = preprocess_html("<!DOCTYPE html><?xml version=\"1.0\"?><p>x</p>");
    assert_eq!(out, "<p>x</p>");
}

#[test]
fn preprocess_strips_the_xhtml_namespace_attribute() {
    let out = preprocess_html("<html xmlns=\"http://www.w3.org/1999/xhtml\"><p>x</p></html>");
    assert_eq!(out, "<html ><p>x</p></html>");
}

#[test]
fn xhtml_document_with_namespace_parses() {
    let chapter = process_chapter_html(
        "<html xmlns=\"http://www.w3.org/1999/xhtml\"><h3>T</h3><p>body</p></html>",
    );
    let b = blocks(&chapter);
    assert_eq!(b.len(), 2);
    assert_eq!(b[0], RenderableBlock::Heading(3, "T".to_string()));
    assert_eq!(b[1], RenderableBlock::Paragraph("body".to_string()));
}

#[test]
fn img_src_is_emitted_with_leading_updirs_stripped() {
    let chapter = process_chapter_html("<div><img src=\"../images/cover.png\"/></div>");
    let b = blocks(&chapter);
    assert_eq!(b.len(), 1);
    assert_eq!(
        b[0],
        RenderableBlock::Image("images/cover.png".to_string())
    );
}

#[test]
fn image_href_is_emitted() {
    let chapter = process_chapter_html("<svg><image href=\"pic.png\"/></svg>");
    let b = blocks(&chapter);
    assert_eq!(b.len(), 1);
    assert_eq!(b[0], RenderableBlock::Image("pic.png".to_string()));
}

#[test]
fn img_without_source_becomes_placeholder() {
    let chapter = process_chapter_html("<p><img alt=\"x\"/>text</p>");
    let b = blocks(&chapter);
    assert_eq!(b.len(), 2);
    assert_eq!(
        b[0],
        RenderableBlock::ImagePlaceholder("Image without source".to_string())
    );
    assert_eq!(b[1], RenderableBlock::Paragraph("text".to_string()));
}

#[test]
fn malformed_markup_falls_back_to_one_paragraph() {
    let chapter = process_chapter_html("This is <b plain");
    let b = blocks(&chapter);
    assert_eq!(b.len(), 1);
    assert_eq!(b[0], RenderableBlock::Paragraph("This is <b plain".to_string()));
}

#[test]
fn nested_paragraphs_reset_the_buffer_flat() {
    let chapter = process_chapter_html("<p>a<p>b</p>c</p>");
    let b = blocks(&chapter);
    assert_eq!(b.len(), 2);
    assert_eq!(b[0], RenderableBlock::Paragraph("b".to_string()));
    assert_eq!(b[1], RenderableBlock::Paragraph("c".to_string()));
}

#[test]
fn heading_text_is_trimmed() {
    let chapter = process_chapter_html("<h2>  Hi  </h2>");
    let b = blocks(&chapter);
    assert_eq!(b.len(), 1);
    assert_eq!(b[0], RenderableBlock::Heading(2, "Hi".to_string()));
}

#[test]
fn whitespace_only_paragraph_is_suppressed() {
    let chapter = process_chapter_html("<r><p> \t </p><p>x</p></r>");
    let b = blocks(&chapter);
    assert_eq!(b.len(), 1);
    assert_eq!(b[0], RenderableBlock::Paragraph("x".to_string()));
}

#[test]
fn unclosed_heading_drops_its_text() {
    // Drive the tag-handling machine directly: a heading that never
    // closes before end-of-input emits nothing.
    let events = vec![
        MarkupEvent::Start {
            name: "h1".to_string(),
            attrs: Vec::new(),
        },
        MarkupEvent::Text {
            text: "Lost".to_string(),
        },
    ];
    let (blocks, failed) = blocks_from_events(&events);
    assert!(!failed);
    assert_eq!(blocks.len(), 0);
}

#[test]
fn heading_close_without_open_emits_nothing() {
    let events = vec![
        MarkupEvent::Text {
            text: "stray".to_string(),
        },
        MarkupEvent::End {
            name: "h2".to_string(),
        },
    ];
    let (blocks, failed) = blocks_from_events(&events);
    assert!(!failed);
    assert_eq!(blocks.len(), 0);
}

#[test]
fn error_event_marks_the_parse_failed() {
    let events = vec![
        MarkupEvent::Start {
            name: "p".to_string(),
            attrs: Vec::new(),
        },
        MarkupEvent::Text {
            text: "x".to_string(),
        },
        MarkupEvent::End {
            name: "p".to_string(),
        },
        MarkupEvent::Error,
    ];
    let (_, failed) = blocks_from_events(&events);
    assert!(failed);
}

#[test]
fn image_attribute_lookup_takes_the_first_match() {
    let events = vec![MarkupEvent::Start {
        name: "img".to_string(),
        attrs: vec![
            Attr {
                name: "alt".to_string(),
                value: "decoration".to_string(),
            },
            Attr {
                name: "src".to_string(),
                value: "a.png".to_string(),
            },
            Attr {
                name: "src".to_string(),
                value: "b.png".to_string(),
            },
        ],
    }];
    let (blocks, failed) = blocks_from_events(&events);
    assert!(!failed);
    assert_eq!(blocks, vec![RenderableBlock::Image("a.png".to_string())]);
}

#[test]
fn fallback_processing_wraps_everything_in_one_paragraph() {
    let chapter = fallback_processing("<!DOCTYPE html>raw & broken <text");
    assert_eq!(
        chapter.blocks,
        vec![RenderableBlock::Paragraph("raw & broken <text".to_string())]
    );
}

#[test]
fn character_data_across_inline_tags_accumulates() {
    let chapter = process_chapter_html("<p>a <b>bold</b> c</p>");
    let b = blocks(&chapter);
    assert_eq!(b.len(), 1);
    assert_eq!(b[0], RenderableBlock::Paragraph("a bold c".to_string()));
}
