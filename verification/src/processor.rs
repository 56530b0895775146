//! Structural markup parser: streams a chapter's markup and emits a flat
//! ordered sequence of typed content blocks.
//!
//! The stream of markup events comes from the `xml` crate; everything the
//! events drive — the flat tag-handling state machine, the preprocessing
//! of declarations, and the fallback path — is verified here against the
//! spec functions below.

use vstd::prelude::*;

use crate::content::{
    BlockModel, RenderableBlock, RenderableChapter, block_text_wf, block_wf, chapter_wf, text_blocks_wf,
};
use crate::text::{
    find_char_from, find_char_at, find_sub, find_sub_spec, lemma_find_char_some,
    lemma_find_sub_some, lemma_trim_idempotent, str_eq, trim_spec, trim_str,
};

verus! {

/// One attribute of a start tag: local name and value.
#[derive(Debug, Clone, PartialEq, Eq)]
pub struct Attr {
    pub name: String,
    pub value: String,
}

/// A markup event, reduced to what block extraction reads: element
/// boundaries by local tag name, character data, and a parse error.
/// Events without structural effect are kept as `Other` so that the
/// event list mirrors the stream one for one.
#[derive(Debug, Clone, PartialEq, Eq)]
pub enum MarkupEvent {
    Start { name: String, attrs: Vec<Attr> },
    End { name: String },
    Text { text: String },
    Other,
    Error,
}

/// The event stream that the markup parser produces for a given input
/// text. The stream is a function of the text alone.
pub uninterp spec fn markup_events_of(s: Seq<char>) -> Seq<MarkupEvent>;

/// Relies on `xml::reader::EventReader`: the pull parser's event stream
/// depends on the input text alone, and an input without a root element
/// (in particular an empty input) yields an error event. The `Events`
/// iterator stops after the first error or end-of-document event.
#[verifier::external_body]
fn read_markup_events(s: &str) -> (r: Vec<MarkupEvent>)
    ensures
        r@ == markup_events_of(s@),
        s@.len() == 0 ==> exists|i: int| 0 <= i < r@.len() && r@[i] is Error,
{
    let mut out = Vec::new();
    for ev in xml::reader::EventReader::from_str(s) {
        out.push(match ev {
            Ok(xml::reader::XmlEvent::StartElement { name, attributes, .. }) => MarkupEvent::Start {
                name: name.local_name,
                attrs: attributes.into_iter().map(|a| Attr { name: a.name.local_name, value: a.value }).collect(),
            },
            Ok(xml::reader::XmlEvent::EndElement { name }) => MarkupEvent::End { name: name.local_name },
            Ok(xml::reader::XmlEvent::Characters(text)) => MarkupEvent::Text { text },
            Ok(_) => MarkupEvent::Other,
            Err(_) => MarkupEvent::Error,
        });
    }
    out
}

/// The heading level a tag name stands for: 1 through 6 for the six
/// heading tags, 0 for every other name.
pub open spec fn heading_tag_level(n: Seq<char>) -> int {
    if n == "h1"@ {
        1
    } else if n == "h2"@ {
        2
    } else if n == "h3"@ {
        3
    } else if n == "h4"@ {
        4
    } else if n == "h5"@ {
        5
    } else if n == "h6"@ {
        6
    } else {
        0
    }
}

/// Executable form of `heading_tag_level`.
pub fn heading_level_of(name: &str) -> (r: usize)
    ensures
        r as int == heading_tag_level(name@),
        0 <= r <= 6,
{
    if str_eq(name, "h1") {
        1
    } else if str_eq(name, "h2") {
        2
    } else if str_eq(name, "h3") {
        3
    } else if str_eq(name, "h4") {
        4
    } else if str_eq(name, "h5") {
        5
    } else if str_eq(name, "h6") {
        6
    } else {
        0
    }
}

/// The value of the first attribute named `key`, if any.
pub open spec fn find_attr_spec(attrs: Seq<Attr>, key: Seq<char>) -> Option<Seq<char>>
    decreases attrs.len(),
{
    if attrs.len() == 0 {
        None
    } else if attrs[0].name@ == key {
        Some(attrs[0].value@)
    } else {
        find_attr_spec(attrs.drop_first(), key)
    }
}

/// Finds the value of the first attribute named `key`.
fn find_attr(attrs: &Vec<Attr>, key: &str) -> (r: Option<String>)
    ensures
        match r {
            Some(v) => find_attr_spec(attrs@, key@) == Some(v@),
            None => find_attr_spec(attrs@, key@) is None,
        },
{
    let mut i: usize = 0;
    proof {
        assert(attrs@.skip(0) =~= attrs@);
    }
    while i < attrs.len()
        invariant
            0 <= i <= attrs@.len(),
            find_attr_spec(attrs@, key@) == find_attr_spec(attrs@.skip(i as int), key@),
        decreases attrs@.len() - i,
    {
        proof {
            assert(attrs@.skip(i as int).drop_first() =~= attrs@.skip(i as int + 1));
            assert(attrs@.skip(i as int)[0] == attrs@[i as int]);
        }
        if str_eq(attrs[i].name.as_str(), key) {
            return Some(attrs[i].value.clone());
        }
        i += 1;
    }
    None
}

/// `s` with every leading parent-directory marker `../` removed.
pub open spec fn strip_updirs_spec(s: Seq<char>) -> Seq<char>
    decreases s.len(),
{
    if s.len() >= 3 && s.subrange(0, 3) == "../"@ {
        strip_updirs_spec(s.skip(3))
    } else {
        s
    }
}

/// Removes every leading `../` marker from a reference.
pub fn strip_updirs(s: &str) -> (r: String)
    ensures
        r@ == strip_updirs_spec(s@),
{
    let mut cur: &str = s;
    loop
        invariant
            strip_updirs_spec(s@) == strip_updirs_spec(cur@),
        decreases cur@.len(),
    {
        let n = cur.unicode_len();
        if n >= 3 {
            let head = cur.substring_char(0, 3);
            if str_eq(head, "../") {
                proof {
                    assert(cur@.skip(3) =~= cur@.subrange(3, n as int));
                }
                cur = cur.substring_char(3, n);
                continue;
            }
        }
        return cur.to_owned();
    }
}

/// The block an image-bearing tag emits: an `Image` carrying the value
/// of the source attribute with leading `../` markers stripped, or a
/// placeholder when that attribute is absent.
pub open spec fn image_block_spec(attrs: Seq<Attr>, key: Seq<char>) -> BlockModel {
    match find_attr_spec(attrs, key) {
        Some(v) => BlockModel::Image(strip_updirs_spec(v)),
        None => BlockModel::ImagePlaceholder("Image without source"@),
    }
}

/// The state of the flat tag-handling machine: blocks emitted so far,
/// the open accumulation buffer, the remembered heading level (0 when
/// none), and whether an error event has been seen.
pub struct ParseAcc {
    pub blocks: Seq<BlockModel>,
    pub buf: Seq<char>,
    pub level: int,
    pub failed: bool,
}

pub open spec fn initial_acc() -> ParseAcc {
    ParseAcc { blocks: Seq::empty(), buf: Seq::empty(), level: 0, failed: false }
}

/// Effect of a start tag: a heading tag resets the buffer and remembers
/// its level; a paragraph tag resets the buffer; the two image-bearing
/// tags emit a block at once; any other tag has no structural effect.
pub open spec fn step_start(acc: ParseAcc, n: Seq<char>, attrs: Seq<Attr>) -> ParseAcc {
    if heading_tag_level(n) >= 1 {
        ParseAcc { blocks: acc.blocks, buf: Seq::empty(), level: heading_tag_level(n), failed: false }
    } else if n == "p"@ {
        ParseAcc { blocks: acc.blocks, buf: Seq::empty(), level: acc.level, failed: false }
    } else if n == "img"@ {
        ParseAcc {
            blocks: acc.blocks.push(image_block_spec(attrs, "src"@)),
            buf: acc.buf,
            level: acc.level,
            failed: false,
        }
    } else if n == "image"@ {
        ParseAcc {
            blocks: acc.blocks.push(image_block_spec(attrs, "href"@)),
            buf: acc.buf,
            level: acc.level,
            failed: false,
        }
    } else {
        acc
    }
}

/// Effect of an end tag: closing a heading or paragraph tag emits the
/// trimmed buffer when it is non-empty (a heading additionally needs a
/// remembered level) and clears the buffer; other tags do nothing.
pub open spec fn step_end(acc: ParseAcc, n: Seq<char>) -> ParseAcc {
    if heading_tag_level(n) >= 1 {
        let t = trim_spec(acc.buf);
        ParseAcc {
            blocks: if t.len() > 0 && 1 <= acc.level <= 6 {
                acc.blocks.push(BlockModel::Heading(acc.level, t))
            } else {
                acc.blocks
            },
            buf: Seq::empty(),
            level: 0,
            failed: false,
        }
    } else if n == "p"@ {
        let t = trim_spec(acc.buf);
        ParseAcc {
            blocks: if t.len() > 0 {
                acc.blocks.push(BlockModel::Paragraph(t))
            } else {
                acc.blocks
            },
            buf: Seq::empty(),
            level: acc.level,
            failed: false,
        }
    } else {
        acc
    }
}

/// Effect of one event on the machine state. After an error event the
/// state never changes again: the parse has failed as a whole.
pub open spec fn step_acc(acc: ParseAcc, ev: MarkupEvent) -> ParseAcc {
    if acc.failed {
        acc
    } else {
        match ev {
            MarkupEvent::Start { name, attrs } => step_start(acc, name@, attrs@),
            MarkupEvent::End { name } => step_end(acc, name@),
            MarkupEvent::Text { text } => ParseAcc {
                blocks: acc.blocks,
                buf: acc.buf + text@,
                level: acc.level,
                failed: false,
            },
            MarkupEvent::Other => acc,
            MarkupEvent::Error => ParseAcc {
                blocks: acc.blocks,
                buf: acc.buf,
                level: acc.level,
                failed: true,
            },
        }
    }
}

/// The machine state after consuming `evs`, starting from `acc`.
pub open spec fn fold_events(acc: ParseAcc, evs: Seq<MarkupEvent>) -> ParseAcc
    decreases evs.len(),
{
    if evs.len() == 0 {
        acc
    } else {
        fold_events(step_acc(acc, evs[0]), evs.drop_first())
    }
}

/// The machine state after consuming a whole event stream.
pub open spec fn parsed_acc(evs: Seq<MarkupEvent>) -> ParseAcc {
    fold_events(initial_acc(), evs)
}

/// Runs the tag-handling machine over an event list. Returns the blocks
/// emitted and whether an error event was seen.
pub fn blocks_from_events(events: &Vec<MarkupEvent>) -> (r: (Vec<RenderableBlock>, bool))
    ensures
        r.0.deep_view() == parsed_acc(events@).blocks,
        r.1 == parsed_acc(events@).failed,
        chapter_wf(r.0.deep_view()),
        text_blocks_wf(r.0.deep_view()),
{
    let mut blocks: Vec<RenderableBlock> = Vec::new();
    let mut buf: String = String::new();
    let mut level: usize = 0;
    let mut failed: bool = false;
    let mut i: usize = 0;
    proof {
        assert(events@.skip(0) =~= events@);
        assert(blocks.deep_view() =~= Seq::<BlockModel>::empty());
    }
    while i < events.len()
        invariant
            0 <= i <= events@.len(),
            0 <= level <= 6,
            chapter_wf(blocks.deep_view()),
            text_blocks_wf(blocks.deep_view()),
            parsed_acc(events@) == fold_events(
                ParseAcc { blocks: blocks.deep_view(), buf: buf@, level: level as int, failed },
                events@.skip(i as int),
            ),
        decreases events@.len() - i,
    {
        let ghost pre = ParseAcc {
            blocks: blocks.deep_view(),
            buf: buf@,
            level: level as int,
            failed,
        };
        proof {
            assert(events@.skip(i as int)[0] == events@[i as int]);
            assert(events@.skip(i as int).drop_first() =~= events@.skip(i as int + 1));
        }
        if !failed {
            let ghost pre_blocks = blocks.deep_view();
            match &events[i] {
                MarkupEvent::Start { name, attrs } => {
                    let lv = heading_level_of(name.as_str());
                    if lv >= 1 {
                        buf = String::new();
                        level = lv;
                    } else if str_eq(name.as_str(), "p") {
                        buf = String::new();
                    } else if str_eq(name.as_str(), "img") {
                        push_image_block(&mut blocks, attrs, "src");
                        proof {
                            assert(blocks.deep_view() =~= pre_blocks.push(
                                image_block_spec(attrs@, "src"@),
                            ));
                        }
                    } else if str_eq(name.as_str(), "image") {
                        push_image_block(&mut blocks, attrs, "href");
                        proof {
                            assert(blocks.deep_view() =~= pre_blocks.push(
                                image_block_spec(attrs@, "href"@),
                            ));
                        }
                    }
                }
                MarkupEvent::End { name } => {
                    let lv = heading_level_of(name.as_str());
                    if lv >= 1 {
                        let t = trim_str(buf.as_str());
                        if t.unicode_len() > 0 && level >= 1 {
                            blocks.push(RenderableBlock::Heading(level, t));
                            proof {
                                assert(blocks.deep_view() =~= pre_blocks.push(
                                    BlockModel::Heading(level as int, trim_spec(pre.buf)),
                                ));
                            }
                        }
                        buf = String::new();
                        level = 0;
                    } else if str_eq(name.as_str(), "p") {
                        let t = trim_str(buf.as_str());
                        if t.unicode_len() > 0 {
                            blocks.push(RenderableBlock::Paragraph(t));
                            proof {
                                assert(blocks.deep_view() =~= pre_blocks.push(
                                    BlockModel::Paragraph(trim_spec(pre.buf)),
                                ));
                            }
                        }
                        buf = String::new();
                    }
                }
                MarkupEvent::Text { text } => {
                    buf.append(text.as_str());
                }
                MarkupEvent::Other => {}
                MarkupEvent::Error => {
                    failed = true;
                }
            }
        }
        proof {
            let now = ParseAcc {
                blocks: blocks.deep_view(),
                buf: buf@,
                level: level as int,
                failed,
            };
            assert(now == step_acc(pre, events@[i as int]));
            assert(forall|j: int|
                0 <= j < blocks.deep_view().len() ==> block_wf(#[trigger] blocks.deep_view()[j]));
            lemma_trim_idempotent(pre.buf);
            assert(forall|j: int|
                0 <= j < blocks.deep_view().len() ==> block_text_wf(
                    #[trigger] blocks.deep_view()[j],
                ));
        }
        i += 1;
    }
    proof {
        assert(events@.skip(i as int) =~= Seq::<MarkupEvent>::empty());
    }
    (blocks, failed)
}

/// Emits the block for one image-bearing tag: the value of the `key`
/// attribute with leading `../` stripped, or a placeholder.
fn push_image_block(blocks: &mut Vec<RenderableBlock>, attrs: &Vec<Attr>, key: &str)
    ensures
        final(blocks).deep_view() == old(blocks).deep_view().push(image_block_spec(attrs@, key@)),
{
    let ghost pre = blocks.deep_view();
    match find_attr(attrs, key) {
        Some(v) => {
            let stripped = strip_updirs(v.as_str());
            blocks.push(RenderableBlock::Image(stripped));
        }
        None => {
            blocks.push(RenderableBlock::ImagePlaceholder(String::from_str("Image without source")));
        }
    }
    proof {
        assert(blocks.deep_view() =~= pre.push(image_block_spec(attrs@, key@)));
    }
}

/// Some event of the stream is a parse error.
pub open spec fn has_error_event(evs: Seq<MarkupEvent>) -> bool {
    exists|i: int| 0 <= i < evs.len() && evs[i] is Error
}

/// Once the machine has failed, further events change nothing.
proof fn lemma_failed_stays(acc: ParseAcc, evs: Seq<MarkupEvent>)
    requires
        acc.failed,
    ensures
        fold_events(acc, evs) == acc,
    decreases evs.len(),
{
    if evs.len() > 0 {
        lemma_failed_stays(acc, evs.drop_first());
    }
}

/// A stream with an error event leaves the machine failed.
proof fn lemma_error_fails(acc: ParseAcc, evs: Seq<MarkupEvent>)
    requires
        has_error_event(evs),
    ensures
        fold_events(acc, evs).failed,
    decreases evs.len(),
{
    let i = choose|i: int| 0 <= i < evs.len() && evs[i] is Error;
    if acc.failed {
        lemma_failed_stays(acc, evs);
    } else if evs[0] is Error {
        lemma_failed_stays(step_acc(acc, evs[0]), evs.drop_first());
    } else {
        assert(evs.drop_first()[i - 1] is Error);
        lemma_error_fails(step_acc(acc, evs[0]), evs.drop_first());
    }
}

/// The document-type declaration opener.
pub open spec fn doctype_pat() -> Seq<char> {
    "<!DOCTYPE"@
}

/// The XML declaration opener.
pub open spec fn xmldecl_pat() -> Seq<char> {
    "<?xml"@
}

/// The XHTML namespace attribute, stripped verbatim when present.
pub open spec fn xhtml_ns_pat() -> Seq<char> {
    "xmlns=\"http://www.w3.org/1999/xhtml\""@
}

/// `s` with the first span from `pat` up to the next `>` removed, when
/// both are present.
pub open spec fn strip_decl_spec(s: Seq<char>, pat: Seq<char>) -> Seq<char> {
    match find_sub_spec(s, pat) {
        Some(i) => match find_char_from(s, '>', i) {
            Some(j) => s.take(i) + s.skip(j + 1),
            None => s,
        },
        None => s,
    }
}

/// `s` with the first occurrence of `pat` removed, when present.
pub open spec fn strip_verbatim_spec(s: Seq<char>, pat: Seq<char>) -> Seq<char> {
    match find_sub_spec(s, pat) {
        Some(i) => s.take(i) + s.skip(i + pat.len() as int),
        None => s,
    }
}

/// The repairs applied before structural parsing: drop a document-type
/// declaration, drop an XML declaration, drop the verbatim XHTML
/// namespace attribute.
pub open spec fn preprocess_spec(s: Seq<char>) -> Seq<char> {
    strip_verbatim_spec(
        strip_decl_spec(strip_decl_spec(s, doctype_pat()), xmldecl_pat()),
        xhtml_ns_pat(),
    )
}

/// Removes the first span that starts with `pat` and runs to the next
/// `>`, if there is one.
fn strip_decl(s: &str, pat: &str) -> (r: String)
    ensures
        r@ == strip_decl_spec(s@, pat@),
{
    match find_sub(s, pat) {
        Some(i) => {
            proof {
                lemma_find_sub_some(s@, pat@, 0, i as int);
            }
            match find_char_at(s, '>', i) {
                Some(j) => {
                    proof {
                        lemma_find_char_some(s@, '>', i as int, j as int);
                    }
                    let n = s.unicode_len();
                    proof {
                        assert(s@.subrange(0, i as int) =~= s@.take(i as int));
                        assert(s@.subrange(j as int + 1, n as int) =~= s@.skip(j as int + 1));
                    }
                    s.substring_char(0, i).to_owned().concat(s.substring_char(j + 1, n))
                }
                None => s.to_owned(),
            }
        }
        None => s.to_owned(),
    }
}

/// Removes the first occurrence of `pat`, if there is one.
fn strip_verbatim(s: &str, pat: &str) -> (r: String)
    ensures
        r@ == strip_verbatim_spec(s@, pat@),
{
    match find_sub(s, pat) {
        Some(i) => {
            proof {
                lemma_find_sub_some(s@, pat@, 0, i as int);
            }
            let n = s.unicode_len();
            let plen = pat.unicode_len();
            proof {
                assert(s@.subrange(0, i as int) =~= s@.take(i as int));
                assert(s@.subrange(i as int + plen as int, n as int) =~= s@.skip(
                    i as int + plen as int,
                ));
            }
            s.substring_char(0, i).to_owned().concat(s.substring_char(i + plen, n))
        }
        None => s.to_owned(),
    }
}

/// Repairs inputs that are XHTML fragments: strips a leading
/// document-type declaration, an XML declaration, and the verbatim
/// XHTML namespace attribute.
pub fn preprocess_html(html_content: &str) -> (r: String)
    ensures
        r@ == preprocess_spec(html_content@),
{
    let step1 = strip_decl(html_content, "<!DOCTYPE");
    let step2 = strip_decl(step1.as_str(), "<?xml");
    strip_verbatim(step2.as_str(), "xmlns=\"http://www.w3.org/1999/xhtml\"")
}

/// The single block of the fallback path: the whole preprocessed text
/// as one paragraph.
pub open spec fn fallback_blocks(s: Seq<char>) -> Seq<BlockModel> {
    seq![BlockModel::Paragraph(preprocess_spec(s))]
}

/// The blocks a chapter's raw markup parses to: the result of the
/// tag-handling machine over the event stream of the preprocessed text,
/// or the fallback paragraph when the parse failed or emitted nothing.
pub open spec fn chapter_blocks_spec(s: Seq<char>) -> Seq<BlockModel> {
    let acc = parsed_acc(markup_events_of(preprocess_spec(s)));
    if acc.failed || acc.blocks.len() == 0 {
        fallback_blocks(s)
    } else {
        acc.blocks
    }
}

/// Treats the whole (preprocessed) text as a single paragraph. Used
/// when structural parsing fails or finds no blocks; never fails
/// itself.
pub fn fallback_processing(html_content: &str) -> (r: RenderableChapter)
    ensures
        r.deep_view() == fallback_blocks(html_content@),
        r.blocks@.len() == 1,
{
    let processed = preprocess_html(html_content);
    let mut blocks: Vec<RenderableBlock> = Vec::new();
    blocks.push(RenderableBlock::Paragraph(processed));
    let r = RenderableChapter { blocks };
    proof {
        assert(r.deep_view() =~= fallback_blocks(html_content@));
    }
    r
}

/// Parses one chapter's raw markup into renderable blocks. Never fails
/// outward: a structural parse is attempted first, and a parse error or
/// an empty block list falls back to a single paragraph, so the result
/// always holds at least one block. For empty input the result is the
/// fallback paragraph with empty text. Every heading block carries a
/// level between 1 and 6.
pub fn process_chapter_html(html_content: &str) -> (r: RenderableChapter)
    ensures
        r.deep_view() == chapter_blocks_spec(html_content@),
        r.blocks@.len() >= 1,
        chapter_wf(r.deep_view()),
        r.deep_view() == fallback_blocks(html_content@) || text_blocks_wf(r.deep_view()),
        html_content@.len() == 0 ==> r.deep_view() == seq![
            BlockModel::Paragraph(Seq::<char>::empty()),
        ],
{
    let processed = preprocess_html(html_content);
    let events = read_markup_events(processed.as_str());
    let (blocks, failed) = blocks_from_events(&events);
    proof {
        if html_content@.len() == 0 {
            lemma_preprocess_empty(html_content@);
            assert(html_content@ =~= Seq::<char>::empty());
            assert(has_error_event(markup_events_of(preprocess_spec(html_content@))));
            lemma_error_fails(initial_acc(), events@);
        }
    }
    if failed || blocks.len() == 0 {
        let r = fallback_processing(html_content);
        proof {
            assert(chapter_wf(r.deep_view()));
        }
        r
    } else {
        RenderableChapter { blocks }
    }
}

/// Preprocessing leaves an empty text empty: none of the stripped
/// patterns occurs in it.
proof fn lemma_preprocess_empty(s: Seq<char>)
    requires
        s.len() == 0,
    ensures
        preprocess_spec(s) == s,
{
    reveal_strlit("<!DOCTYPE");
    reveal_strlit("<?xml");
    reveal_strlit("xmlns=\"http://www.w3.org/1999/xhtml\"");
    assert(doctype_pat().len() > 0);
    assert(xmldecl_pat().len() > 0);
    assert(xhtml_ns_pat().len() > 0);
}

} // verus!
