//! Renderable content blocks: the structured output of chapter ingestion.

use vstd::prelude::*;

use crate::text::trim_spec;

verus! {

/// One typed unit of renderable chapter content, in document order.
#[derive(Debug, Clone, PartialEq, Eq)]
pub enum RenderableBlock {
    /// Body text, trimmed at both ends.
    Paragraph(String),
    /// A heading: level (1 through 6) and trimmed text.
    Heading(usize, String),
    /// An embedded image reference, as it appeared in the markup with
    /// leading parent-directory markers removed.
    Image(String),
    /// Stands in for an image-bearing element without a usable source.
    ImagePlaceholder(String),
}

/// The mathematical value of a `RenderableBlock`.
pub enum BlockModel {
    Paragraph(Seq<char>),
    Heading(int, Seq<char>),
    Image(Seq<char>),
    ImagePlaceholder(Seq<char>),
}

impl DeepView for RenderableBlock {
    type V = BlockModel;

    open spec fn deep_view(&self) -> BlockModel {
        match self {
            RenderableBlock::Paragraph(t) => BlockModel::Paragraph(t@),
            RenderableBlock::Heading(level, t) => BlockModel::Heading(*level as int, t@),
            RenderableBlock::Image(r) => BlockModel::Image(r@),
            RenderableBlock::ImagePlaceholder(d) => BlockModel::ImagePlaceholder(d@),
        }
    }
}

/// A heading block carries a level between 1 and 6; the other block
/// kinds carry no level at all.
pub open spec fn block_wf(b: BlockModel) -> bool {
    match b {
        BlockModel::Heading(level, _) => 1 <= level <= 6,
        _ => true,
    }
}

/// One navigable unit of the book: an ordered sequence of content
/// blocks. Immutable once built; navigation replaces it wholesale.
#[derive(Debug, Clone, PartialEq, Eq)]
pub struct RenderableChapter {
    pub blocks: Vec<RenderableBlock>,
}

impl DeepView for RenderableChapter {
    type V = Seq<BlockModel>;

    open spec fn deep_view(&self) -> Seq<BlockModel> {
        self.blocks.deep_view()
    }
}

/// Every heading block of the chapter has a level between 1 and 6.
pub open spec fn chapter_wf(blocks: Seq<BlockModel>) -> bool {
    forall|i: int| 0 <= i < blocks.len() ==> block_wf(#[trigger] blocks[i])
}

/// A paragraph or heading block carries non-empty, trimmed text.
pub open spec fn block_text_wf(b: BlockModel) -> bool {
    match b {
        BlockModel::Paragraph(t) => t.len() > 0 && t == trim_spec(t),
        BlockModel::Heading(_, t) => t.len() > 0 && t == trim_spec(t),
        _ => true,
    }
}

/// Every paragraph or heading block of the chapter carries non-empty
/// text without leading or trailing whitespace: text that is empty
/// after trimming suppresses emission entirely, so no two adjacent
/// empty text blocks can ever occur.
pub open spec fn text_blocks_wf(blocks: Seq<BlockModel>) -> bool {
    forall|i: int| 0 <= i < blocks.len() ==> block_text_wf(#[trigger] blocks[i])
}

} // verus!
