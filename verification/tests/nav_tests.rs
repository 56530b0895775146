use creb::app::{AppState, ChapterData};
use creb::content::RenderableBlock;
use creb::resolver::{ResourceEntry, ResourceHandle};

fn data(raw: &str, location: Option<&str>) -> ChapterData {
    ChapterData {
        raw_html: raw.to_string(),
        location: location.map(|l| l.to_string()),
    }
}

fn cover_table() -> Vec<ResourceEntry> {
    vec![ResourceEntry {
        key: "images/cover.png".to_string(),
        stored_path: "OEBPS/images/cover.png".to_string(),
        content_type: "image/png".to_string(),
    }]
}

fn two_chapter_state() -> AppState {
    AppState::new(
        2,
        cover_table(),
        0,
        &data("<p>first chapter</p>", Some("text/ch1.xhtml")),
    )
    .unwrap()
}

#[test]
fn new_rejects_an_out_of_bounds_chapter() {
    let r = AppState::new(2, Vec::new(), 2, &data("<p>x</p>", None));
    assert_eq!(r.unwrap_err(), "Chapter index 2 out of bounds");
}

#[test]
fn new_rejects_any_index_into_an_empty_book() {
    let r = AppState::new(0, Vec::new(), 0, &data("", None));
    assert_eq!(r.unwrap_err(), "Chapter index 0 out of bounds");
}

#[test]
fn new_builds_the_initial_chapter_state() {
    let st = two_chapter_state();
    assert_eq!(st.chapter_count, 2);
    assert_eq!(st.current_chapter_index, 0);
    assert_eq!(st.scroll_position, 0);
    assert_eq!(st.current_image_index, 0);
    assert!(!st.should_quit);
    assert_eq!(
        st.renderable_chapter.blocks,
        vec![RenderableBlock::Paragraph("first chapter".to_string())]
    );
    assert!(st.image_paths.is_empty());
    assert!(st.extracted_images.is_empty());
}

#[test]
fn new_derives_image_paths_and_handles_in_block_order() {
    let st = AppState::new(
        1,
        cover_table(),
        0,
        &data(
            "<div><img src=\"../images/cover.png\"/><img src=\"missing.png\"/></div>",
            Some("text/ch1.xhtml"),
        ),
    )
    .unwrap();
    assert_eq!(
        st.image_paths,
        vec!["images/cover.png".to_string(), "missing.png".to_string()]
    );
    assert_eq!(st.extracted_images.len(), 2);
    assert_eq!(
        st.extracted_images[0],
        ResourceHandle::Available {
            stored_path: "OEBPS/images/cover.png".to_string(),
            file_name: "cover.png".to_string(),
        }
    );
    assert_eq!(st.extracted_images[1], ResourceHandle::Unavailable);
}

#[test]
fn next_chapter_commits_and_resets_the_cursors() {
    let mut st = two_chapter_state();
    st.scroll_position = 7;
    st.current_image_index = 3;
    let r = st.next_chapter(Ok(&data("<p>second</p>", Some("text/ch2.xhtml"))));
    assert!(r.is_ok());
    assert_eq!(st.current_chapter_index, 1);
    assert_eq!(st.scroll_position, 0);
    assert_eq!(st.current_image_index, 0);
    assert_eq!(
        st.renderable_chapter.blocks,
        vec![RenderableBlock::Paragraph("second".to_string())]
    );
}

#[test]
fn next_chapter_at_the_last_chapter_is_a_no_op() {
    let mut st = two_chapter_state();
    let r = st.next_chapter(Ok(&data("<p>second</p>", None)));
    assert!(r.is_ok());
    assert_eq!(st.current_chapter_index, 1);
    st.scroll_position = 4;
    let r = st.next_chapter(Err("unused".to_string()));
    assert!(r.is_ok());
    assert_eq!(st.current_chapter_index, 1);
    assert_eq!(st.scroll_position, 4);
}

#[test]
fn failed_load_leaves_the_whole_state_untouched() {
    let mut st = two_chapter_state();
    st.scroll_position = 9;
    st.current_image_index = 1;
    let before_blocks = st.renderable_chapter.blocks.clone();
    let r = st.next_chapter(Err("could not read chapter".to_string()));
    assert_eq!(r.unwrap_err(), "could not read chapter");
    assert_eq!(st.current_chapter_index, 0);
    assert_eq!(st.scroll_position, 9);
    assert_eq!(st.current_image_index, 1);
    assert_eq!(st.renderable_chapter.blocks, before_blocks);
}

#[test]
fn previous_chapter_at_the_first_chapter_is_a_no_op() {
    let mut st = two_chapter_state();
    let r = st.previous_chapter(Err("unused".to_string()));
    assert!(r.is_ok());
    assert_eq!(st.current_chapter_index, 0);
}

#[test]
fn previous_chapter_commits_on_success() {
    let mut st = two_chapter_state();
    st.next_chapter(Ok(&data("<p>second</p>", None))).unwrap();
    let r = st.previous_chapter(Ok(&data("<p>first chapter</p>", Some("text/ch1.xhtml"))));
    assert!(r.is_ok());
    assert_eq!(st.current_chapter_index, 0);
}

#[test]
fn previous_chapter_failure_is_atomic_too() {
    let mut st = two_chapter_state();
    st.next_chapter(Ok(&data("<p>second</p>", None))).unwrap();
    st.scroll_position = 3;
    let r = st.previous_chapter(Err("gone".to_string()));
    assert_eq!(r.unwrap_err(), "gone");
    assert_eq!(st.current_chapter_index, 1);
    assert_eq!(st.scroll_position, 3);
}

#[test]
fn transition_indices_respect_the_bounds() {
    let mut st = two_chapter_state();
    assert_eq!(st.next_chapter_index(), Some(1));
    assert_eq!(st.previous_chapter_index(), None);
    st.next_chapter(Ok(&data("<p>second</p>", None))).unwrap();
    assert_eq!(st.next_chapter_index(), None);
    assert_eq!(st.previous_chapter_index(), Some(0));
}

#[test]
fn scrolling_saturates_at_the_top() {
    let mut st = two_chapter_state();
    st.scroll_up();
    assert_eq!(st.scroll_position, 0);
    st.scroll_down();
    st.scroll_down();
    assert_eq!(st.scroll_position, 2);
    st.scroll_up();
    assert_eq!(st.scroll_position, 1);
}

#[test]
fn paging_moves_by_the_page_size_and_saturates() {
    let mut st = two_chapter_state();
    st.page_down(12);
    assert_eq!(st.scroll_position, 12);
    st.page_up(5);
    assert_eq!(st.scroll_position, 7);
    st.page_up(100);
    assert_eq!(st.scroll_position, 0);
    st.scroll_position = usize::MAX;
    st.page_down(2);
    assert_eq!(st.scroll_position, usize::MAX);
}

#[test]
fn current_image_handle_follows_the_selection() {
    let mut st = AppState::new(
        1,
        cover_table(),
        0,
        &data(
            "<div><img src=\"../images/cover.png\"/></div>",
            Some("text/ch1.xhtml"),
        ),
    )
    .unwrap();
    assert!(st.get_current_image_path().is_some());
    st.current_image_index = 1;
    assert!(st.get_current_image_path().is_none());
}

#[test]
fn chapter_title_counts_from_one() {
    let mut st = two_chapter_state();
    assert_eq!(st.get_chapter_title(), "Chapter 1");
    st.chapter_count = 100;
    st.current_chapter_index = 11;
    assert_eq!(st.get_chapter_title(), "Chapter 12");
    st.current_chapter_index = 99;
    assert_eq!(st.get_chapter_title(), "Chapter 100");
}

#[test]
fn progress_is_index_over_last_index() {
    let mut st = two_chapter_state();
    assert_eq!(st.get_chapter_progress(), (0, 1));
    st.next_chapter(Ok(&data("<p>second</p>", None))).unwrap();
    assert_eq!(st.get_chapter_progress(), (1, 1));
    let single = AppState::new(1, Vec::new(), 0, &data("<p>only</p>", None)).unwrap();
    assert_eq!(single.get_chapter_progress(), (1, 1));
}
