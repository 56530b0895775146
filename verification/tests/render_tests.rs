use creb::content::{RenderableBlock, RenderableChapter};
use creb::renderer::Renderer;

fn chapter(blocks: Vec<RenderableBlock>) -> RenderableChapter {
    RenderableChapter { blocks }
}

#[test]
fn paragraph_lines_are_wrapped_two_short_of_the_width() {
    let ch = chapter(vec![RenderableBlock::Paragraph("hello world".to_string())]);
    let lines = Renderer::render_chapter_lines(&ch, 10);
    assert_eq!(lines, vec!["", "hello", "world", ""]);
}

#[test]
fn level_one_heading_is_decorated_with_equals_signs() {
    let ch = chapter(vec![RenderableBlock::Heading(1, "T".to_string())]);
    let lines = Renderer::render_chapter_lines(&ch, 40);
    assert_eq!(lines, vec!["", " ===== T ===== ", ""]);
}

#[test]
fn narrow_viewports_shorten_the_heading_decoration() {
    let ch = chapter(vec![RenderableBlock::Heading(1, "T".to_string())]);
    let lines = Renderer::render_chapter_lines(&ch, 10);
    assert_eq!(lines, vec!["", " == T == ", ""]);
}

#[test]
fn level_two_heading_uses_dashes() {
    let ch = chapter(vec![RenderableBlock::Heading(2, "Sub".to_string())]);
    let lines = Renderer::render_chapter_lines(&ch, 40);
    assert_eq!(lines, vec!["", " --- Sub --- ", ""]);
}

#[test]
fn deep_headings_use_hash_marks_without_a_suffix() {
    let ch = chapter(vec![
        RenderableBlock::Heading(3, "a".to_string()),
        RenderableBlock::Heading(6, "b".to_string()),
    ]);
    let lines = Renderer::render_chapter_lines(&ch, 40);
    assert_eq!(
        lines,
        vec!["", " ### a  ", "", "", " ###### b  ", ""]
    );
}

#[test]
fn image_blocks_show_their_reference_and_a_hint() {
    let ch = chapter(vec![RenderableBlock::Image("images/x.png".to_string())]);
    let lines = Renderer::render_chapter_lines(&ch, 40);
    assert_eq!(
        lines,
        vec![
            "",
            "[Image: images/x.png]",
            "(Press 'i' when this line is visible to view the image)",
            "",
        ]
    );
}

#[test]
fn placeholder_blocks_show_their_description_without_a_hint() {
    let ch = chapter(vec![RenderableBlock::ImagePlaceholder(
        "Image without source".to_string(),
    )]);
    let lines = Renderer::render_chapter_lines(&ch, 40);
    assert_eq!(lines, vec!["", "[Image: Image without source]", ""]);
}

#[test]
fn blocks_compose_in_document_order() {
    let ch = chapter(vec![
        RenderableBlock::Heading(1, "T".to_string()),
        RenderableBlock::Paragraph("body text".to_string()),
    ]);
    let lines = Renderer::render_chapter_lines(&ch, 20);
    assert_eq!(
        lines,
        vec!["", " ===== T ===== ", "", "", "body text", ""]
    );
}

#[test]
fn an_empty_chapter_renders_no_lines() {
    let ch = chapter(Vec::new());
    let lines = Renderer::render_chapter_lines(&ch, 20);
    assert!(lines.is_empty());
}
