//! Resource path resolver: maps a reference found in markup (possibly
//! relative, possibly malformed) to an entry of the book's resource
//! table, with a fallback suffix-match search, and names the stable
//! location its bytes are materialized under.

use vstd::prelude::*;

use crate::text::str_eq;

verus! {

/// One entry of the book's resource table: the canonical path used as
/// lookup key, the stored path of the bytes inside the package, and the
/// entry's content type.
#[derive(Debug, Clone, PartialEq, Eq)]
pub struct ResourceEntry {
    pub key: String,
    pub stored_path: String,
    pub content_type: String,
}

/// The mathematical value of a `ResourceEntry`.
pub struct ResourceEntryModel {
    pub key: Seq<char>,
    pub stored_path: Seq<char>,
    pub content_type: Seq<char>,
}

impl DeepView for ResourceEntry {
    type V = ResourceEntryModel;

    open spec fn deep_view(&self) -> ResourceEntryModel {
        ResourceEntryModel {
            key: self.key@,
            stored_path: self.stored_path@,
            content_type: self.content_type@,
        }
    }
}

/// The result of resolving an image reference: the stored path whose
/// bytes to materialize and the file name to materialize them under, or
/// the sentinel for a reference no table entry matches. Resolution
/// failure is never fatal: callers display a placeholder instead.
#[derive(Debug, Clone, PartialEq, Eq)]
pub enum ResourceHandle {
    Available { stored_path: String, file_name: String },
    Unavailable,
}

/// The mathematical value of a `ResourceHandle`.
pub enum HandleModel {
    Available { stored_path: Seq<char>, file_name: Seq<char> },
    Unavailable,
}

impl DeepView for ResourceHandle {
    type V = HandleModel;

    open spec fn deep_view(&self) -> HandleModel {
        match self {
            ResourceHandle::Available { stored_path, file_name } => HandleModel::Available {
                stored_path: stored_path@,
                file_name: file_name@,
            },
            ResourceHandle::Unavailable => HandleModel::Unavailable,
        }
    }
}

/// The segments of `s` between `/` separators, from position `i` on,
/// with `cur` the partial segment read so far. Empty segments are kept;
/// normalization treats them as no-ops.
pub open spec fn seg_rec(s: Seq<char>, i: int, cur: Seq<char>, acc: Seq<Seq<char>>) -> Seq<
    Seq<char>,
>
    decreases s.len() - i,
        when 0 <= i <= s.len()
{
    if i >= s.len() {
        acc.push(cur)
    } else if s[i] == '/' {
        seg_rec(s, i + 1, Seq::empty(), acc.push(cur))
    } else {
        seg_rec(s, i + 1, cur.push(s[i]), acc)
    }
}

/// The `/`-separated segments of a path. Always at least one segment.
pub open spec fn path_segments(s: Seq<char>) -> Seq<Seq<char>> {
    seg_rec(s, 0, Seq::empty(), Seq::empty())
}

/// Segment splitting always yields at least one more segment than were
/// already accumulated.
proof fn lemma_seg_rec_len(s: Seq<char>, i: int, cur: Seq<char>, acc: Seq<Seq<char>>)
    requires
        0 <= i <= s.len(),
    ensures
        seg_rec(s, i, cur, acc).len() > acc.len(),
    decreases s.len() - i,
{
    if i < s.len() {
        if s[i] == '/' {
            lemma_seg_rec_len(s, i + 1, Seq::empty(), acc.push(cur));
        } else {
            lemma_seg_rec_len(s, i + 1, cur.push(s[i]), acc);
        }
    }
}

/// A path has at least one segment.
proof fn lemma_path_segments_nonempty(s: Seq<char>)
    ensures
        path_segments(s).len() >= 1,
{
    lemma_seg_rec_len(s, 0, Seq::empty(), Seq::empty());
}

/// Splits a path on `/` into its segments.
pub fn split_path_segments(s: &str) -> (r: Vec<String>)
    ensures
        r.deep_view() == path_segments(s@),
        r@.len() >= 1,
{
    let n = s.unicode_len();
    let mut segs: Vec<String> = Vec::new();
    let mut cur: String = String::new();
    let mut i: usize = 0;
    proof {
        assert(segs.deep_view() =~= Seq::<Seq<char>>::empty());
    }
    while i < n
        invariant
            0 <= i <= n,
            n == s@.len(),
            path_segments(s@) == seg_rec(s@, i as int, cur@, segs.deep_view()),
        decreases n - i,
    {
        let ghost pre = segs.deep_view();
        let c = s.get_char(i);
        if c == '/' {
            segs.push(cur);
            proof {
                assert(segs.deep_view() =~= pre.push(cur@));
            }
            cur = String::new();
        } else {
            let piece = s.substring_char(i, i + 1);
            proof {
                assert(piece@ =~= seq![s@[i as int]]);
                assert(cur@ + piece@ =~= cur@.push(s@[i as int]));
            }
            cur.append(piece);
        }
        i += 1;
    }
    let ghost pre = segs.deep_view();
    segs.push(cur);
    proof {
        assert(segs.deep_view() =~= pre.push(cur@));
        lemma_path_segments_nonempty(s@);
    }
    segs
}

/// One step of path normalization: `.` and empty segments are no-ops,
/// `..` pops the last segment when there is one (and collapses away
/// when there is none), anything else is a real segment.
pub open spec fn norm_step(stack: Seq<Seq<char>>, seg: Seq<char>) -> Seq<Seq<char>> {
    if seg.len() == 0 || seg == "."@ {
        stack
    } else if seg == ".."@ {
        if stack.len() > 0 {
            stack.drop_last()
        } else {
            stack
        }
    } else {
        stack.push(seg)
    }
}

/// The stack after normalizing all of `segs` onto `stack`.
pub open spec fn norm_fold(stack: Seq<Seq<char>>, segs: Seq<Seq<char>>) -> Seq<Seq<char>>
    decreases segs.len(),
{
    if segs.len() == 0 {
        stack
    } else {
        norm_fold(norm_step(stack, segs[0]), segs.drop_first())
    }
}

/// Folding one more segment applies one more step.
proof fn lemma_norm_fold_push(stack: Seq<Seq<char>>, segs: Seq<Seq<char>>, seg: Seq<char>)
    ensures
        norm_fold(stack, segs.push(seg)) == norm_step(norm_fold(stack, segs), seg),
    decreases segs.len(),
{
    if segs.len() == 0 {
        assert(segs.push(seg)[0] == seg);
        assert(segs.push(seg).drop_first() =~= Seq::<Seq<char>>::empty());
        assert(norm_fold(norm_step(stack, seg), Seq::<Seq<char>>::empty()) == norm_step(
            stack,
            seg,
        ));
    } else {
        assert(segs.push(seg)[0] == segs[0]);
        assert(segs.push(seg).drop_first() =~= segs.drop_first().push(seg));
        lemma_norm_fold_push(norm_step(stack, segs[0]), segs.drop_first(), seg);
    }
}

/// Normalizes the first `count` segments of `segs` onto `stack`.
fn norm_apply(stack: &mut Vec<String>, segs: &Vec<String>, count: usize)
    requires
        count <= segs@.len(),
    ensures
        final(stack).deep_view() == norm_fold(
            old(stack).deep_view(),
            segs.deep_view().take(count as int),
        ),
{
    let ghost base = stack.deep_view();
    let mut i: usize = 0;
    proof {
        assert(segs.deep_view().take(0) =~= Seq::<Seq<char>>::empty());
    }
    while i < count
        invariant
            0 <= i <= count <= segs@.len(),
            stack.deep_view() == norm_fold(base, segs.deep_view().take(i as int)),
        decreases count - i,
    {
        let ghost pre = stack.deep_view();
        proof {
            assert(segs.deep_view().take(i as int + 1) =~= segs.deep_view().take(
                i as int,
            ).push(segs.deep_view()[i as int]));
            lemma_norm_fold_push(base, segs.deep_view().take(i as int), segs.deep_view()[i as int]);
        }
        let seg = &segs[i];
        if seg.unicode_len() == 0 || str_eq(seg.as_str(), ".") {
        } else if str_eq(seg.as_str(), "..") {
            if stack.len() > 0 {
                stack.pop();
                proof {
                    assert(stack.deep_view() =~= pre.drop_last());
                }
            }
        } else {
            stack.push(seg.clone());
            proof {
                assert(stack.deep_view() =~= pre.push(segs.deep_view()[i as int]));
            }
        }
        i += 1;
    }
}

/// The segments of `segs` joined with `/` between them.
pub open spec fn join_slash(segs: Seq<Seq<char>>) -> Seq<char>
    decreases segs.len(),
{
    if segs.len() == 0 {
        Seq::empty()
    } else if segs.len() == 1 {
        segs[0]
    } else {
        segs[0] + seq!['/'] + join_slash(segs.drop_first())
    }
}

/// Joining after appending a segment appends it behind a separator.
proof fn lemma_join_slash_push(segs: Seq<Seq<char>>, seg: Seq<char>)
    ensures
        join_slash(segs.push(seg)) == if segs.len() == 0 {
            seg
        } else {
            join_slash(segs) + seq!['/'] + seg
        },
    decreases segs.len(),
{
    if segs.len() == 0 {
        assert(segs.push(seg)[0] == seg);
    } else {
        lemma_join_slash_push(segs.drop_first(), seg);
        assert(segs.push(seg).drop_first() =~= segs.drop_first().push(seg));
        assert(segs.push(seg)[0] == segs[0]);
        if segs.len() > 1 {
            assert(segs[0] + seq!['/'] + (join_slash(segs.drop_first()) + seq!['/'] + seg) =~= (
            segs[0] + seq!['/'] + join_slash(segs.drop_first())) + seq!['/'] + seg);
        }
    }
}

/// Joins segments with `/`.
fn join_segments(segs: &Vec<String>) -> (r: String)
    ensures
        r@ == join_slash(segs.deep_view()),
{
    let mut out = String::new();
    let mut i: usize = 0;
    proof {
        assert(segs.deep_view().take(0) =~= Seq::<Seq<char>>::empty());
    }
    while i < segs.len()
        invariant
            0 <= i <= segs@.len(),
            out@ == join_slash(segs.deep_view().take(i as int)),
        decreases segs@.len() - i,
    {
        proof {
            reveal_strlit("/");
            assert("/"@ =~= seq!['/']);
            assert(segs.deep_view().take(i as int + 1) =~= segs.deep_view().take(
                i as int,
            ).push(segs.deep_view()[i as int]));
            lemma_join_slash_push(segs.deep_view().take(i as int), segs.deep_view()[i as int]);
        }
        if i == 0 {
            out = segs[i].clone();
        } else {
            out = out.concat("/").concat(segs[i].as_str());
        }
        i += 1;
    }
    proof {
        assert(segs.deep_view().take(segs@.len() as int) =~= segs.deep_view());
    }
    out
}

/// The canonical lookup key of `reference` resolved against the
/// directory of `location`: the location's segments but the last, then
/// the reference's segments, normalized onto one stack and joined.
pub open spec fn resolved_key_spec(reference: Seq<char>, location: Seq<char>) -> Seq<char> {
    let dir = path_segments(location).drop_last();
    join_slash(norm_fold(norm_fold(Seq::empty(), dir), path_segments(reference)))
}

/// The canonical lookup key: the reference resolved against the chapter
/// location's directory when a location is known, the reference itself
/// when none is.
pub open spec fn lookup_key_spec(reference: Seq<char>, location: Option<Seq<char>>) -> Seq<
    char,
> {
    match location {
        Some(loc) => resolved_key_spec(reference, loc),
        None => reference,
    }
}

/// The view of an optional location string.
pub open spec fn location_view(location: Option<&str>) -> Option<Seq<char>> {
    match location {
        Some(loc) => Some(loc@),
        None => None,
    }
}

/// Computes the canonical lookup key of a reference.
pub fn lookup_key(reference: &str, chapter_location: Option<&str>) -> (r: String)
    ensures
        r@ == lookup_key_spec(reference@, location_view(chapter_location)),
{
    match chapter_location {
        Some(loc) => {
            let loc_segs = split_path_segments(loc);
            let ref_segs = split_path_segments(reference);
            let mut stack: Vec<String> = Vec::new();
            proof {
                assert(stack.deep_view() =~= Seq::<Seq<char>>::empty());
            }
            norm_apply(&mut stack, &loc_segs, loc_segs.len() - 1);
            proof {
                assert(loc_segs.deep_view().take(loc_segs@.len() - 1)
                    =~= loc_segs.deep_view().drop_last());
            }
            norm_apply(&mut stack, &ref_segs, ref_segs.len());
            proof {
                assert(ref_segs.deep_view().take(ref_segs@.len() as int)
                    =~= ref_segs.deep_view());
            }
            join_segments(&stack)
        }
        None => reference.to_owned(),
    }
}

/// Resolves a reference relative to the current chapter's location:
/// the location's directory is joined with the reference and the
/// result is normalized into a canonical lookup key. Without a known
/// location the resolution is refused.
pub fn resolve_relative_path(relative_path: &str, chapter_location: Option<&str>) -> (r: Result<
    String,
    String,
>)
    ensures
        r is Ok <==> chapter_location is Some,
        r matches Ok(k) ==> k@ == lookup_key_spec(relative_path@, location_view(chapter_location)),
        r matches Err(e) ==> e@ == "No current chapter path set"@,
{
    match chapter_location {
        Some(_) => Ok(lookup_key(relative_path, chapter_location)),
        None => Err(String::from_str("No current chapter path set")),
    }
}

/// Whether `a` ends with `b`.
pub open spec fn ends_with_spec(a: Seq<char>, b: Seq<char>) -> bool {
    b.len() <= a.len() && a.skip(a.len() - b.len()) == b
}

/// Whether `a` ends with `b`, by characters.
pub fn str_ends_with(a: &str, b: &str) -> (r: bool)
    ensures
        r == ends_with_spec(a@, b@),
{
    let alen = a.unicode_len();
    let blen = b.unicode_len();
    if blen > alen {
        return false;
    }
    let tail = a.substring_char(alen - blen, alen);
    proof {
        assert(tail@ =~= a@.skip(a@.len() - b@.len()));
    }
    str_eq(tail, b)
}

/// The first entry whose canonical key is exactly `key`, if any.
pub open spec fn find_direct_spec(table: Seq<ResourceEntryModel>, key: Seq<char>) -> Option<
    ResourceEntryModel,
>
    decreases table.len(),
{
    if table.len() == 0 {
        None
    } else if table[0].key == key {
        Some(table[0])
    } else {
        find_direct_spec(table.drop_first(), key)
    }
}

/// The first entry whose stored path ends with the canonical key or
/// with the unmodified reference, if any.
pub open spec fn find_suffix_spec(
    table: Seq<ResourceEntryModel>,
    key: Seq<char>,
    reference: Seq<char>,
) -> Option<ResourceEntryModel>
    decreases table.len(),
{
    if table.len() == 0 {
        None
    } else if ends_with_spec(table[0].stored_path, key) || ends_with_spec(
        table[0].stored_path,
        reference,
    ) {
        Some(table[0])
    } else {
        find_suffix_spec(table.drop_first(), key, reference)
    }
}

/// The final path segment of a reference: the name its materialized
/// bytes go under.
pub open spec fn file_name_spec(reference: Seq<char>) -> Seq<char> {
    path_segments(reference).last()
}

/// The handle a matched entry yields: the entry's stored path under the
/// reference's file name. A reference without a final segment (ending
/// in `/`) cannot be materialized and yields the sentinel.
pub open spec fn entry_handle_spec(e: ResourceEntryModel, reference: Seq<char>) -> HandleModel {
    if file_name_spec(reference).len() > 0 {
        HandleModel::Available { stored_path: e.stored_path, file_name: file_name_spec(reference) }
    } else {
        HandleModel::Unavailable
    }
}

/// The handle a reference resolves to against a table: the canonical
/// key is looked up directly first; failing that, the first entry whose
/// stored path ends with the key or the reference matches; failing
/// both, the sentinel.
pub open spec fn resolve_spec(
    reference: Seq<char>,
    location: Option<Seq<char>>,
    table: Seq<ResourceEntryModel>,
) -> HandleModel {
    let key = lookup_key_spec(reference, location);
    match find_direct_spec(table, key) {
        Some(e) => entry_handle_spec(e, reference),
        None => match find_suffix_spec(table, key, reference) {
            Some(e) => entry_handle_spec(e, reference),
            None => HandleModel::Unavailable,
        },
    }
}

/// Finds the first entry whose key equals `key`.
fn find_direct<'a>(table: &'a Vec<ResourceEntry>, key: &str) -> (r: Option<&'a ResourceEntry>)
    ensures
        match r {
            Some(e) => find_direct_spec(table.deep_view(), key@) == Some(e.deep_view()),
            None => find_direct_spec(table.deep_view(), key@) is None,
        },
{
    let mut i: usize = 0;
    proof {
        assert(table.deep_view().skip(0) =~= table.deep_view());
    }
    while i < table.len()
        invariant
            0 <= i <= table@.len(),
            find_direct_spec(table.deep_view(), key@) == find_direct_spec(
                table.deep_view().skip(i as int),
                key@,
            ),
        decreases table@.len() - i,
    {
        proof {
            assert(table.deep_view().skip(i as int)[0] == table.deep_view()[i as int]);
            assert(table.deep_view().skip(i as int).drop_first() =~= table.deep_view().skip(
                i as int + 1,
            ));
        }
        if str_eq(table[i].key.as_str(), key) {
            return Some(&table[i]);
        }
        i += 1;
    }
    None
}

/// Finds the first entry whose stored path ends with `key` or with
/// `reference`.
fn find_suffix<'a>(table: &'a Vec<ResourceEntry>, key: &str, reference: &str) -> (r: Option<
    &'a ResourceEntry,
>)
    ensures
        match r {
            Some(e) => find_suffix_spec(table.deep_view(), key@, reference@) == Some(e.deep_view()),
            None => find_suffix_spec(table.deep_view(), key@, reference@) is None,
        },
{
    let mut i: usize = 0;
    proof {
        assert(table.deep_view().skip(0) =~= table.deep_view());
    }
    while i < table.len()
        invariant
            0 <= i <= table@.len(),
            find_suffix_spec(table.deep_view(), key@, reference@) == find_suffix_spec(
                table.deep_view().skip(i as int),
                key@,
                reference@,
            ),
        decreases table@.len() - i,
    {
        proof {
            assert(table.deep_view().skip(i as int)[0] == table.deep_view()[i as int]);
            assert(table.deep_view().skip(i as int).drop_first() =~= table.deep_view().skip(
                i as int + 1,
            ));
        }
        if str_ends_with(table[i].stored_path.as_str(), key) || str_ends_with(
            table[i].stored_path.as_str(),
            reference,
        ) {
            return Some(&table[i]);
        }
        i += 1;
    }
    None
}

/// The reference's final path segment.
fn file_name_of(reference: &str) -> (r: String)
    ensures
        r@ == file_name_spec(reference@),
{
    let segs = split_path_segments(reference);
    let r = segs[segs.len() - 1].clone();
    proof {
        assert(segs.deep_view()[segs@.len() - 1] == path_segments(reference@).last());
    }
    r
}

/// Resolves an image reference against the book's resource table: the
/// canonical key is tried directly, then by suffix match, in table
/// order; a match names the stored bytes and the file name to
/// materialize them under, and anything else yields the "unavailable"
/// sentinel rather than an error.
pub fn resolve_image(
    reference: &str,
    chapter_location: Option<&str>,
    table: &Vec<ResourceEntry>,
) -> (r: ResourceHandle)
    ensures
        r.deep_view() == resolve_spec(reference@, location_view(chapter_location), table.deep_view()),
{
    let key = lookup_key(reference, chapter_location);
    let entry = match find_direct(table, key.as_str()) {
        Some(e) => Some(e),
        None => find_suffix(table, key.as_str(), reference),
    };
    match entry {
        Some(e) => {
            let name = file_name_of(reference);
            if name.unicode_len() > 0 {
                ResourceHandle::Available {
                    stored_path: e.stored_path.clone(),
                    file_name: name,
                }
            } else {
                ResourceHandle::Unavailable
            }
        }
        None => ResourceHandle::Unavailable,
    }
}

/// Resolution is a function of the reference, the location and the
/// table alone: two resolutions of the same reference yield the same
/// handle, so the bytes they point to are the same.
pub proof fn lemma_resolve_idempotent(
    reference: Seq<char>,
    location: Option<Seq<char>>,
    table: Seq<ResourceEntryModel>,
    h1: HandleModel,
    h2: HandleModel,
)
    requires
        h1 == resolve_spec(reference, location, table),
        h2 == resolve_spec(reference, location, table),
    ensures
        h1 == h2,
{
}

} // verus!
