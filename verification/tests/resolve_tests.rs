use creb::resolver::{
    lookup_key, resolve_image, resolve_relative_path, ResourceEntry, ResourceHandle,
};

fn entry(key: &str, stored: &str, mime: &str) -> ResourceEntry {
    ResourceEntry {
        key: key.to_string(),
        stored_path: stored.to_string(),
        content_type: mime.to_string(),
    }
}

#[test]
fn parent_reference_resolves_against_the_chapter_directory() {
    let key = resolve_relative_path("../images/cover.png", Some("text/ch1.xhtml"));
    assert_eq!(key, Ok("images/cover.png".to_string()));
}

#[test]
fn resolution_without_a_location_is_refused() {
    let key = resolve_relative_path("images/cover.png", None);
    assert_eq!(key, Err("No current chapter path set".to_string()));
}

#[test]
fn sibling_reference_joins_the_chapter_directory() {
    let key = resolve_relative_path("images/pic.png", Some("text/ch1.xhtml"));
    assert_eq!(key, Ok("text/images/pic.png".to_string()));
}

#[test]
fn dot_and_empty_segments_are_no_ops() {
    let key = resolve_relative_path("./a//b", Some("c/d.xhtml"));
    assert_eq!(key, Ok("c/a/b".to_string()));
}

#[test]
fn traversal_above_the_root_collapses_away() {
    let key = resolve_relative_path("../../x.png", Some("a/b.xhtml"));
    assert_eq!(key, Ok("x.png".to_string()));
}

#[test]
fn lookup_key_without_location_is_the_reference_itself() {
    let key = lookup_key("images/cover.png", None);
    assert_eq!(key, "images/cover.png");
}

#[test]
fn direct_table_hit_returns_the_stored_path() {
    let table = vec![
        entry("text/ch1.xhtml", "OEBPS/text/ch1.xhtml", "application/xhtml+xml"),
        entry("images/cover.png", "OEBPS/images/cover.png", "image/png"),
    ];
    let h = resolve_image("../images/cover.png", Some("text/ch1.xhtml"), &table);
    assert_eq!(
        h,
        ResourceHandle::Available {
            stored_path: "OEBPS/images/cover.png".to_string(),
            file_name: "cover.png".to_string(),
        }
    );
}

#[test]
fn suffix_fallback_absorbs_a_namespace_mismatch() {
    // The chapter-relative key is `text/images/cover.png`, which the
    // table does not hold; the stored path still ends with the
    // reference, so the fallback scan finds it.
    let table = vec![entry(
        "img-cover",
        "OEBPS/images/cover.png",
        "image/png",
    )];
    let h = resolve_image("images/cover.png", Some("text/ch1.xhtml"), &table);
    assert_eq!(
        h,
        ResourceHandle::Available {
            stored_path: "OEBPS/images/cover.png".to_string(),
            file_name: "cover.png".to_string(),
        }
    );
}

#[test]
fn fallback_takes_the_first_matching_entry_in_table_order() {
    let table = vec![
        entry("a", "one/images/pic.png", "image/png"),
        entry("b", "two/images/pic.png", "image/png"),
    ];
    let h = resolve_image("images/pic.png", Some("text/ch.xhtml"), &table);
    assert_eq!(
        h,
        ResourceHandle::Available {
            stored_path: "one/images/pic.png".to_string(),
            file_name: "pic.png".to_string(),
        }
    );
}

#[test]
fn unmatched_reference_yields_the_unavailable_sentinel() {
    let table = vec![entry("images/cover.png", "OEBPS/images/cover.png", "image/png")];
    let h = resolve_image("missing.jpg", Some("text/ch1.xhtml"), &table);
    assert_eq!(h, ResourceHandle::Unavailable);
}

#[test]
fn resolution_is_deterministic_across_calls() {
    let table = vec![
        entry("images/cover.png", "OEBPS/images/cover.png", "image/png"),
        entry("style.css", "OEBPS/style.css", "text/css"),
    ];
    let h1 = resolve_image("../images/cover.png", Some("text/ch1.xhtml"), &table);
    let h2 = resolve_image("../images/cover.png", Some("text/ch1.xhtml"), &table);
    assert_eq!(h1, h2);
}

#[test]
fn reference_ending_in_a_separator_cannot_be_materialized() {
    let table = vec![entry("images/", "OEBPS/images/", "image/png")];
    let h = resolve_image("images/", None, &table);
    assert_eq!(h, ResourceHandle::Unavailable);
}
