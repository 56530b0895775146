//! Navigation state machine: the reading session's chapter index,
//! scroll offset and image selection, and the chapter transitions that
//! re-run the ingestion pipeline.
//!
//! Fetching a chapter's raw bytes is the surrounding session's job: a
//! transition takes the fetch's outcome as an argument and commits the
//! new state only on success, so a failed load leaves every field at
//! its pre-transition value.

use vstd::prelude::*;

use crate::content::{BlockModel, RenderableBlock, RenderableChapter};
use crate::processor::{chapter_blocks_spec, process_chapter_html};
use crate::resolver::{
    HandleModel, ResourceEntry, ResourceEntryModel, ResourceHandle, location_view, resolve_image,
    resolve_spec,
};
use crate::text::{dec_str, usize_to_string};

verus! {

/// One fetched chapter: its raw markup and, when known, the path of its
/// source file inside the package, used for relative resolution.
#[derive(Debug, Clone, PartialEq, Eq)]
pub struct ChapterData {
    pub raw_html: String,
    pub location: Option<String>,
}

/// The view of a fetched chapter's optional location.
pub open spec fn chapter_location_view(data: ChapterData) -> Option<Seq<char>> {
    match data.location {
        Some(l) => Some(l@),
        None => None,
    }
}

/// The references of the `Image` blocks of a chapter, in block order.
pub open spec fn image_refs_spec(blocks: Seq<BlockModel>) -> Seq<Seq<char>>
    decreases blocks.len(),
{
    if blocks.len() == 0 {
        Seq::empty()
    } else {
        match blocks[0] {
            BlockModel::Image(p) => seq![p] + image_refs_spec(blocks.drop_first()),
            _ => image_refs_spec(blocks.drop_first()),
        }
    }
}

/// The handles the references resolve to, in the same order.
pub open spec fn handles_spec(
    refs: Seq<Seq<char>>,
    location: Option<Seq<char>>,
    table: Seq<ResourceEntryModel>,
) -> Seq<HandleModel> {
    Seq::new(refs.len(), |i: int| resolve_spec(refs[i], location, table))
}

/// Collects the references of a chapter's `Image` blocks.
fn collect_image_paths(blocks: &Vec<RenderableBlock>) -> (r: Vec<String>)
    ensures
        r.deep_view() == image_refs_spec(blocks.deep_view()),
{
    let mut paths: Vec<String> = Vec::new();
    let mut i: usize = 0;
    let ghost dv = blocks.deep_view();
    proof {
        assert(paths.deep_view() =~= Seq::<Seq<char>>::empty());
        assert(dv.skip(0) =~= dv);
    }
    while i < blocks.len()
        invariant
            0 <= i <= blocks@.len(),
            dv == blocks.deep_view(),
            dv.len() == blocks@.len(),
            image_refs_spec(dv) == paths.deep_view() + image_refs_spec(dv.skip(i as int)),
        decreases blocks@.len() - i,
    {
        let ghost pre = paths.deep_view();
        proof {
            assert(dv.skip(i as int)[0] == dv[i as int]);
            assert(dv.skip(i as int).drop_first() =~= dv.skip(i as int + 1));
        }
        match &blocks[i] {
            RenderableBlock::Image(p) => {
                paths.push(p.clone());
                proof {
                    assert(paths.deep_view() =~= pre.push(p@));
                    assert(pre + (seq![p@] + image_refs_spec(dv.skip(i as int + 1))) =~= (pre
                        + seq![p@]) + image_refs_spec(dv.skip(i as int + 1)));
                    assert(pre.push(p@) =~= pre + seq![p@]);
                }
            }
            _ => {}
        }
        i += 1;
    }
    proof {
        assert(dv.skip(i as int) =~= Seq::<BlockModel>::empty());
        assert(paths.deep_view() + Seq::<Seq<char>>::empty() =~= paths.deep_view());
    }
    paths
}

/// Resolves every reference against the table, in order. A reference
/// nothing matches yields the sentinel, never an error.
fn extract_images(
    refs: &Vec<String>,
    location: Option<&str>,
    table: &Vec<ResourceEntry>,
) -> (r: Vec<ResourceHandle>)
    ensures
        r.deep_view() == handles_spec(refs.deep_view(), location_view(location), table.deep_view()),
{
    let mut handles: Vec<ResourceHandle> = Vec::new();
    let mut i: usize = 0;
    while i < refs.len()
        invariant
            0 <= i <= refs@.len(),
            handles.deep_view() =~= handles_spec(
                refs.deep_view(),
                location_view(location),
                table.deep_view(),
            ).take(i as int),
        decreases refs@.len() - i,
    {
        let ghost pre = handles.deep_view();
        let h = resolve_image(refs[i].as_str(), location, table);
        handles.push(h);
        proof {
            assert(handles.deep_view() =~= pre.push(h.deep_view()));
            assert(handles.deep_view() =~= handles_spec(
                refs.deep_view(),
                location_view(location),
                table.deep_view(),
            ).take(i as int + 1));
        }
        i += 1;
    }
    proof {
        assert(handles_spec(refs.deep_view(), location_view(location), table.deep_view()).take(
            refs@.len() as int,
        ) =~= handles_spec(refs.deep_view(), location_view(location), table.deep_view()));
    }
    handles
}

/// The reading session's state: the book's chapter count and resource
/// table, the current chapter with its derived image lists, and the
/// scroll and image cursors.
#[derive(Debug)]
pub struct AppState {
    pub chapter_count: usize,
    pub resources: Vec<ResourceEntry>,
    pub current_chapter_index: usize,
    pub renderable_chapter: RenderableChapter,
    pub should_quit: bool,
    pub scroll_position: usize,
    pub image_paths: Vec<String>,
    pub current_image_index: usize,
    pub extracted_images: Vec<ResourceHandle>,
}

/// The fields a committed chapter load establishes: the new index, the
/// chapter parsed from the fetched markup, the image references and
/// handles derived from it, cursors reset, and everything else kept.
pub open spec fn loaded_spec(post: AppState, pre: AppState, index: int, data: ChapterData) -> bool {
    let blocks = chapter_blocks_spec(data.raw_html@);
    &&& post.chapter_count == pre.chapter_count
    &&& post.resources == pre.resources
    &&& post.should_quit == pre.should_quit
    &&& post.current_chapter_index == index
    &&& post.scroll_position == 0
    &&& post.current_image_index == 0
    &&& post.renderable_chapter.deep_view() == blocks
    &&& post.image_paths.deep_view() == image_refs_spec(blocks)
    &&& post.extracted_images.deep_view() == handles_spec(
        image_refs_spec(blocks),
        chapter_location_view(data),
        pre.resources.deep_view(),
    )
}

/// The error reported for a chapter index outside the book.
pub open spec fn out_of_bounds_msg(index: int) -> Seq<char> {
    "Chapter index "@ + dec_str(index) + " out of bounds"@
}

impl AppState {
    /// The session invariant: the current chapter index lies inside the
    /// book.
    pub open spec fn wf(&self) -> bool {
        self.current_chapter_index < self.chapter_count
    }

    /// Rebuilds the chapter-derived state from one fetched chapter and
    /// commits the new index with both cursors reset.
    fn apply_chapter(&mut self, index: usize, data: &ChapterData)
        requires
            index < old(self).chapter_count,
        ensures
            final(self).wf(),
            loaded_spec(*final(self), *old(self), index as int, *data),
    {
        self.renderable_chapter = process_chapter_html(data.raw_html.as_str());
        self.image_paths = collect_image_paths(&self.renderable_chapter.blocks);
        let loc: Option<&str> = match &data.location {
            Some(l) => Some(l.as_str()),
            None => None,
        };
        self.extracted_images = extract_images(&self.image_paths, loc, &self.resources);
        self.current_chapter_index = index;
        self.scroll_position = 0;
        self.current_image_index = 0;
    }

    /// Opens a session on a book of `chapter_count` chapters with the
    /// given resource table, at `initial_chapter`, whose fetched content
    /// is `data`. An index outside the book is reported, not clamped.
    pub fn new(
        chapter_count: usize,
        resources: Vec<ResourceEntry>,
        initial_chapter: usize,
        data: &ChapterData,
    ) -> (r: Result<AppState, String>)
        ensures
            r is Ok <==> initial_chapter < chapter_count,
            r matches Ok(st) ==> {
                &&& st.wf()
                &&& st.chapter_count == chapter_count
                &&& st.resources == resources
                &&& st.should_quit == false
                &&& loaded_spec(st, st, initial_chapter as int, *data)
            },
            r matches Err(e) ==> e@ == out_of_bounds_msg(initial_chapter as int),
    {
        if initial_chapter >= chapter_count {
            return Err(
                String::from_str("Chapter index ").concat(
                    usize_to_string(initial_chapter).as_str(),
                ).concat(" out of bounds"),
            );
        }
        let mut st = AppState {
            chapter_count,
            resources,
            current_chapter_index: 0,
            renderable_chapter: RenderableChapter { blocks: Vec::new() },
            should_quit: false,
            scroll_position: 0,
            image_paths: Vec::new(),
            current_image_index: 0,
            extracted_images: Vec::new(),
        };
        st.apply_chapter(initial_chapter, data);
        Ok(st)
    }

    /// The index the next-chapter transition would load, or nothing
    /// when the session is already at the last chapter.
    pub fn next_chapter_index(&self) -> (r: Option<usize>)
        requires
            self.wf(),
        ensures
            r == if self.current_chapter_index + 1 < self.chapter_count {
                Some((self.current_chapter_index + 1) as usize)
            } else {
                None::<usize>
            },
    {
        if self.current_chapter_index + 1 < self.chapter_count {
            Some(self.current_chapter_index + 1)
        } else {
            None
        }
    }

    /// The index the previous-chapter transition would load, or nothing
    /// at the first chapter.
    pub fn previous_chapter_index(&self) -> (r: Option<usize>)
        ensures
            r == if self.current_chapter_index > 0 {
                Some((self.current_chapter_index - 1) as usize)
            } else {
                None::<usize>
            },
    {
        if self.current_chapter_index > 0 {
            Some(self.current_chapter_index - 1)
        } else {
            None
        }
    }

    /// Advances to the next chapter. At the last chapter this is a
    /// no-op. A failed fetch aborts the transition: the whole state is
    /// exactly what it was before the call, and the fetch's error is
    /// reported. On success the new chapter is committed and both
    /// cursors reset.
    pub fn next_chapter(&mut self, fetched: Result<&ChapterData, String>) -> (r: Result<
        (),
        String,
    >)
        requires
            old(self).wf(),
        ensures
            final(self).wf(),
            old(self).current_chapter_index + 1 >= old(self).chapter_count ==> *final(self)
                == *old(self) && r is Ok,
            old(self).current_chapter_index + 1 < old(self).chapter_count ==> match fetched {
                Ok(data) => r is Ok && loaded_spec(
                    *final(self),
                    *old(self),
                    old(self).current_chapter_index + 1,
                    *data,
                ),
                Err(e) => r == Err::<(), String>(e) && *final(self) == *old(self),
            },
    {
        if self.current_chapter_index + 1 < self.chapter_count {
            match fetched {
                Ok(data) => {
                    let index = self.current_chapter_index + 1;
                    self.apply_chapter(index, data);
                    Ok(())
                }
                Err(e) => Err(e),
            }
        } else {
            Ok(())
        }
    }

    /// Moves to the previous chapter. At the first chapter this is a
    /// no-op; a failed fetch aborts the transition as in
    /// `next_chapter`.
    pub fn previous_chapter(&mut self, fetched: Result<&ChapterData, String>) -> (r: Result<
        (),
        String,
    >)
        requires
            old(self).wf(),
        ensures
            final(self).wf(),
            old(self).current_chapter_index == 0 ==> *final(self) == *old(self) && r is Ok,
            old(self).current_chapter_index > 0 ==> match fetched {
                Ok(data) => r is Ok && loaded_spec(
                    *final(self),
                    *old(self),
                    old(self).current_chapter_index - 1,
                    *data,
                ),
                Err(e) => r == Err::<(), String>(e) && *final(self) == *old(self),
            },
    {
        if self.current_chapter_index > 0 {
            match fetched {
                Ok(data) => {
                    let index = self.current_chapter_index - 1;
                    self.apply_chapter(index, data);
                    Ok(())
                }
                Err(e) => Err(e),
            }
        } else {
            Ok(())
        }
    }

    /// Scrolls one line down, saturating.
    pub fn scroll_down(&mut self)
        ensures
            final(self).scroll_position == if old(self).scroll_position + 1 > usize::MAX {
                usize::MAX as int
            } else {
                old(self).scroll_position + 1
            },
            unchanged_but_scroll(*final(self), *old(self)),
    {
        self.scroll_position = self.scroll_position.saturating_add(1);
    }

    /// Scrolls one line up, saturating at the top.
    pub fn scroll_up(&mut self)
        ensures
            final(self).scroll_position == if old(self).scroll_position > 0 {
                old(self).scroll_position - 1
            } else {
                0
            },
            unchanged_but_scroll(*final(self), *old(self)),
    {
        self.scroll_position = self.scroll_position.saturating_sub(1);
    }

    /// Scrolls a page down, saturating.
    pub fn page_down(&mut self, page_size: usize)
        ensures
            final(self).scroll_position == if old(self).scroll_position + page_size
                > usize::MAX {
                usize::MAX as int
            } else {
                old(self).scroll_position + page_size
            },
            unchanged_but_scroll(*final(self), *old(self)),
    {
        self.scroll_position = self.scroll_position.saturating_add(page_size);
    }

    /// Scrolls a page up, saturating at the top.
    pub fn page_up(&mut self, page_size: usize)
        ensures
            final(self).scroll_position == if old(self).scroll_position >= page_size {
                old(self).scroll_position - page_size
            } else {
                0
            },
            unchanged_but_scroll(*final(self), *old(self)),
    {
        self.scroll_position = self.scroll_position.saturating_sub(page_size);
    }

    /// The handle of the currently selected image, when the selection
    /// is in range.
    pub fn get_current_image_path(&self) -> (r: Option<&ResourceHandle>)
        ensures
            match r {
                Some(h) => self.current_image_index < self.extracted_images@.len() && *h
                    == self.extracted_images@[self.current_image_index as int],
                None => self.current_image_index >= self.extracted_images@.len(),
            },
    {
        if self.current_image_index < self.extracted_images.len() {
            Some(&self.extracted_images[self.current_image_index])
        } else {
            None
        }
    }

    /// The displayed chapter title: the one-based chapter number.
    pub fn get_chapter_title(&self) -> (r: String)
        requires
            self.wf(),
        ensures
            r@ == "Chapter "@ + dec_str(self.current_chapter_index + 1),
    {
        String::from_str("Chapter ").concat(
            usize_to_string(self.current_chapter_index + 1).as_str(),
        )
    }

    /// Reading progress through the book as a fraction: the current
    /// index over the last index, or one whole for a book of a single
    /// chapter. Returned as numerator and denominator; display layers
    /// divide.
    pub fn get_chapter_progress(&self) -> (r: (usize, usize))
        ensures
            r == if self.chapter_count <= 1 {
                (1usize, 1usize)
            } else {
                (self.current_chapter_index, (self.chapter_count - 1) as usize)
            },
    {
        if self.chapter_count <= 1 {
            (1, 1)
        } else {
            (self.current_chapter_index, self.chapter_count - 1)
        }
    }
}

/// Everything but the scroll offset is unchanged.
pub open spec fn unchanged_but_scroll(post: AppState, pre: AppState) -> bool {
    &&& post.chapter_count == pre.chapter_count
    &&& post.resources == pre.resources
    &&& post.current_chapter_index == pre.current_chapter_index
    &&& post.renderable_chapter == pre.renderable_chapter
    &&& post.should_quit == pre.should_quit
    &&& post.image_paths == pre.image_paths
    &&& post.current_image_index == pre.current_image_index
    &&& post.extracted_images == pre.extracted_images
}

} // verus!
