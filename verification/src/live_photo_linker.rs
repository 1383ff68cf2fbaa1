//! The Live Photo linker: media handles grouped by capture session.
//!
//! A Live Photo is an image and a video that share a content identifier.
//! The linker is built once from the catalog's media entries. Its reporting
//! methods drop what they report from the groups, so that later calls see
//! the resolved state.

use std::collections::HashMap;
use vstd::prelude::*;

use crate::catalog::Entry;
use crate::metadata::{FileHandle, Metadata, ModifyDate};
use crate::seqs::{
    concat, concat_all, lemma_add_contains, lemma_add_distinct, lemma_concat_append,
    lemma_concat_distinct, lemma_concat_empty, lemma_concat_members, lemma_push_contains,
    lemma_remove_distinct,
};
use crate::text::{opt_str_is, str_eq};

verus! {

broadcast use vstd::std_specs::hash::group_hash_axioms;

/// Which list of its group a linked file belongs to.
#[derive(Clone, Copy, Debug, PartialEq, Eq, Structural)]
pub enum MediaClass {
    Image,
    Video,
}

/// One capture session: the handles of its images and of its videos, each
/// in the order in which they were linked.
pub struct GroupView {
    pub session_id: Seq<char>,
    pub images: Seq<FileHandle>,
    pub videos: Seq<FileHandle>,
}

/// The linker's model: its groups, in the order in which their sessions
/// first appeared.
pub type Groups = Seq<GroupView>;

/// Whether files of this format can be the image of a Live Photo.
pub open spec fn is_image_format(format: Seq<char>) -> bool {
    format == "JPEG"@ || format == "HEIC"@
}

/// Whether files of this format can be the video of a Live Photo.
pub open spec fn is_video_format(format: Seq<char>) -> bool {
    format == "MOV"@
}

/// Whether a video with this codec carries a content identifier that can be
/// relied on.
pub open spec fn is_live_codec(codec: Seq<char>) -> bool {
    codec == "avc1"@ || codec == "hev1"@
}

/// The format that is kept in preference to any other.
pub open spec fn is_preferred_format(format: Seq<char>) -> bool {
    format == "HEIC"@
}

/// The list that a file is linked into, if it is linked at all: it must
/// carry a content identifier and be an image, or a video with a
/// recognised codec.
pub open spec fn link_class(m: Metadata) -> Option<MediaClass> {
    if m.content_identifier is None {
        None
    } else if is_image_format(m.file_type@) {
        Some(MediaClass::Image)
    } else if is_video_format(m.file_type@) && m.compressor_id is Some && is_live_codec(
        m.compressor_id->0@,
    ) {
        Some(MediaClass::Video)
    } else {
        None
    }
}

/// Every handle of a group: its images, then its videos.
pub open spec fn handles_of(g: GroupView) -> Seq<FileHandle> {
    g.images + g.videos
}

/// Whether `h` is linked into some group.
pub open spec fn occurs(groups: Groups, h: FileHandle) -> bool {
    exists|i: int| 0 <= i < groups.len() && #[trigger] handles_of(groups[i]).contains(h)
}

/// Whether some group has the session identifier `id`.
pub open spec fn has_group(groups: Groups, id: Seq<char>) -> bool {
    exists|i: int| 0 <= i < groups.len() && (#[trigger] groups[i]).session_id == id
}

/// No two groups share a session identifier.
pub open spec fn distinct_ids(groups: Groups) -> bool {
    forall|i: int, j: int|
        0 <= i < j < groups.len() ==> (#[trigger] groups[i]).session_id != (
        #[trigger] groups[j]).session_id
}

/// No handle is linked twice, within a group or across groups.
pub open spec fn distinct_handles(groups: Groups) -> bool {
    &&& forall|i: int|
        0 <= i < groups.len() ==> (#[trigger] handles_of(groups[i])).no_duplicates()
    &&& forall|i: int, j: int, h: FileHandle|
        0 <= i < j < groups.len() ==> !(#[trigger] handles_of(groups[i]).contains(h)
            && #[trigger] handles_of(groups[j]).contains(h))
}

/// The linker's invariant.
pub open spec fn well_linked(groups: Groups) -> bool {
    distinct_ids(groups) && distinct_handles(groups)
}

/// `g` with `h` appended to the list of `class`.
pub open spec fn with_member(g: GroupView, class: MediaClass, h: FileHandle) -> GroupView {
    match class {
        MediaClass::Image => GroupView { images: g.images.push(h), ..g },
        MediaClass::Video => GroupView { videos: g.videos.push(h), ..g },
    }
}

/// A group of the session `id` that holds `h` alone.
pub open spec fn first_member(id: Seq<char>, class: MediaClass, h: FileHandle) -> GroupView {
    with_member(
        GroupView { session_id: id, images: Seq::empty(), videos: Seq::empty() },
        class,
        h,
    )
}

/// `groups` after `h` joins the session `id`: appended to that session's
/// group if there is one, else in a new group at the end.
pub open spec fn add_member(groups: Groups, id: Seq<char>, class: MediaClass, h: FileHandle) -> Groups {
    if has_group(groups, id) {
        let i = choose|i: int| 0 <= i < groups.len() && (#[trigger] groups[i]).session_id == id;
        groups.update(i, with_member(groups[i], class, h))
    } else {
        groups.push(first_member(id, class, h))
    }
}

/// `groups` after the file `h` with the tags `m` is considered for linking.
pub open spec fn link_one(groups: Groups, h: FileHandle, m: Metadata) -> Groups {
    match link_class(m) {
        Some(class) => add_member(groups, m.content_identifier->0@, class, h),
        None => groups,
    }
}

/// The groups that the first `n` files form, each given by its handle and
/// its tags.
pub open spec fn linked(media: Seq<(FileHandle, Metadata)>, n: nat) -> Groups
    decreases n,
{
    if n == 0 {
        Seq::empty()
    } else {
        link_one(linked(media, (n - 1) as nat), media[n - 1].0, media[n - 1].1)
    }
}

/// The groups that all the files form.
pub open spec fn linked_all(media: Seq<(FileHandle, Metadata)>) -> Groups {
    linked(media, media.len())
}

/// The handle and the tags of every listed entry.
pub open spec fn tagged(listing: Seq<(FileHandle, &Entry)>) -> Seq<(FileHandle, Metadata)> {
    listing.map_values(|p: (FileHandle, &Entry)| (p.0, p.1.metadata))
}

/// No handle is listed twice.
pub open spec fn distinct_listing(media: Seq<(FileHandle, Metadata)>) -> bool {
    forall|i: int, j: int|
        0 <= i < j < media.len() ==> (#[trigger] media[i]).0 != (#[trigger] media[j]).0
}

/// Whether `a` is a better file to keep than `b`: it alone has the
/// preferred format, or neither differs in that and `a` was modified later.
pub open spec fn beats(
    types: Map<FileHandle, String>,
    dates: Map<FileHandle, ModifyDate>,
    a: FileHandle,
    b: FileHandle,
) -> bool {
    let pa = is_preferred_format(types[a]@);
    let pb = is_preferred_format(types[b]@);
    (pa && !pb) || (pa == pb && dates[a].later_than(dates[b]))
}

/// The position of the file to keep among the first `n` candidates: the
/// first one that no other beats.
pub open spec fn keeper_index(
    types: Map<FileHandle, String>,
    dates: Map<FileHandle, ModifyDate>,
    c: Seq<FileHandle>,
    n: nat,
) -> int
    decreases n,
{
    if n <= 1 {
        0
    } else {
        let k = keeper_index(types, dates, c, (n - 1) as nat);
        if beats(types, dates, c[n - 1], c[k]) {
            n - 1
        } else {
            k
        }
    }
}

/// The position of the file to keep among all candidates.
pub open spec fn keeper_position(
    types: Map<FileHandle, String>,
    dates: Map<FileHandle, ModifyDate>,
    c: Seq<FileHandle>,
) -> int {
    keeper_index(types, dates, c, c.len())
}

/// A list after its duplicates are resolved: the file to keep alone, if
/// there was more than one.
pub open spec fn resolved(
    types: Map<FileHandle, String>,
    dates: Map<FileHandle, ModifyDate>,
    c: Seq<FileHandle>,
) -> Seq<FileHandle> {
    if c.len() > 1 {
        seq![c[keeper_position(types, dates, c)]]
    } else {
        c
    }
}

/// The duplicates of a list: all but the file to keep, in list order, if
/// there was more than one.
pub open spec fn duplicates_in(
    types: Map<FileHandle, String>,
    dates: Map<FileHandle, ModifyDate>,
    c: Seq<FileHandle>,
) -> Seq<FileHandle> {
    if c.len() > 1 {
        c.remove(keeper_position(types, dates, c))
    } else {
        Seq::empty()
    }
}

/// What is reported for one list: the file to keep with its duplicates, if
/// there was more than one.
pub open spec fn class_report(
    types: Map<FileHandle, String>,
    dates: Map<FileHandle, ModifyDate>,
    c: Seq<FileHandle>,
) -> Seq<(FileHandle, Seq<FileHandle>)> {
    if c.len() > 1 {
        seq![(c[keeper_position(types, dates, c)], c.remove(keeper_position(types, dates, c)))]
    } else {
        Seq::empty()
    }
}

/// What is reported for one group: for its images, then for its videos.
pub open spec fn group_reports(
    types: Map<FileHandle, String>,
    dates: Map<FileHandle, ModifyDate>,
    g: GroupView,
) -> Seq<(FileHandle, Seq<FileHandle>)> {
    class_report(types, dates, g.images) + class_report(types, dates, g.videos)
}

/// The reports of every group, group by group.
pub open spec fn report_parts(
    types: Map<FileHandle, String>,
    dates: Map<FileHandle, ModifyDate>,
    groups: Groups,
) -> Seq<Seq<(FileHandle, Seq<FileHandle>)>> {
    Seq::new(groups.len(), |i: int| group_reports(types, dates, groups[i]))
}

/// Every duplicate report, in group order.
pub open spec fn duplicate_reports(
    types: Map<FileHandle, String>,
    dates: Map<FileHandle, ModifyDate>,
    groups: Groups,
) -> Seq<(FileHandle, Seq<FileHandle>)> {
    concat_all(report_parts(types, dates, groups))
}

/// A group after its duplicates are resolved.
pub open spec fn dedup_group(
    types: Map<FileHandle, String>,
    dates: Map<FileHandle, ModifyDate>,
    g: GroupView,
) -> GroupView {
    GroupView {
        session_id: g.session_id,
        images: resolved(types, dates, g.images),
        videos: resolved(types, dates, g.videos),
    }
}

/// The groups after every duplicate is resolved.
pub open spec fn deduplicated(
    types: Map<FileHandle, String>,
    dates: Map<FileHandle, ModifyDate>,
    groups: Groups,
) -> Groups {
    Seq::new(groups.len(), |i: int| dedup_group(types, dates, groups[i]))
}

/// The handles of a group that must be looked up to resolve its
/// duplicates: those of each list with more than one member.
pub open spec fn candidates_of(g: GroupView) -> Seq<FileHandle> {
    (if g.images.len() > 1 {
        g.images
    } else {
        Seq::empty()
    }) + (if g.videos.len() > 1 {
        g.videos
    } else {
        Seq::empty()
    })
}

/// The candidates of every group, group by group.
pub open spec fn candidate_parts(groups: Groups) -> Seq<Seq<FileHandle>> {
    Seq::new(groups.len(), |i: int| candidates_of(groups[i]))
}

/// Every handle that duplicate resolution looks up, in group order.
pub open spec fn candidates(groups: Groups) -> Seq<FileHandle> {
    concat_all(candidate_parts(groups))
}

/// Both lookups know every handle that duplicate resolution asks for.
pub open spec fn covers(
    types: Map<FileHandle, String>,
    dates: Map<FileHandle, ModifyDate>,
    groups: Groups,
) -> bool {
    forall|i: int, h: FileHandle|
        0 <= i < groups.len() && #[trigger] candidates_of(groups[i]).contains(h)
            ==> types.contains_key(h) && dates.contains_key(h)
}

/// The videos of a group that are left without an image.
pub open spec fn leftover_of(g: GroupView) -> Seq<FileHandle> {
    if g.images.len() == 0 {
        g.videos
    } else {
        Seq::empty()
    }
}

/// The leftover videos of every group, group by group.
pub open spec fn leftover_parts(groups: Groups) -> Seq<Seq<FileHandle>> {
    Seq::new(groups.len(), |i: int| leftover_of(groups[i]))
}

/// Every video without an image, in group order and then list order.
pub open spec fn leftover_videos(groups: Groups) -> Seq<FileHandle> {
    concat_all(leftover_parts(groups))
}

/// A group after its leftover videos are dropped.
pub open spec fn without_leftover_of(g: GroupView) -> GroupView {
    if g.images.len() == 0 {
        GroupView { videos: Seq::empty(), ..g }
    } else {
        g
    }
}

/// The groups after every leftover video is dropped.
pub open spec fn without_leftover(groups: Groups) -> Groups {
    Seq::new(groups.len(), |i: int| without_leftover_of(groups[i]))
}

/// What iteration yields for one group: its two lists, unless both are
/// empty.
pub open spec fn listing_of(g: GroupView) -> Seq<(Seq<FileHandle>, Seq<FileHandle>)> {
    if g.images.len() + g.videos.len() > 0 {
        seq![(g.images, g.videos)]
    } else {
        Seq::empty()
    }
}

/// What iteration yields for every group, group by group.
pub open spec fn listing_parts(groups: Groups) -> Seq<Seq<(Seq<FileHandle>, Seq<FileHandle>)>> {
    Seq::new(groups.len(), |i: int| listing_of(groups[i]))
}

/// The lists of every group that is not empty, in group order.
pub open spec fn listing(groups: Groups) -> Seq<(Seq<FileHandle>, Seq<FileHandle>)> {
    concat_all(listing_parts(groups))
}

/// The reports as sequences.
pub open spec fn report_views(reports: Seq<(FileHandle, Vec<FileHandle>)>) -> Seq<
    (FileHandle, Seq<FileHandle>),
> {
    reports.map_values(|r: (FileHandle, Vec<FileHandle>)| (r.0, r.1@))
}

/// The pairs of lists as sequences.
pub open spec fn pair_views(pairs: Seq<(Vec<FileHandle>, Vec<FileHandle>)>) -> Seq<
    (Seq<FileHandle>, Seq<FileHandle>),
> {
    pairs.map_values(|p: (Vec<FileHandle>, Vec<FileHandle>)| (p.0@, p.1@))
}

/// The file to keep is one of the candidates.
pub proof fn lemma_keeper_in_range(
    types: Map<FileHandle, String>,
    dates: Map<FileHandle, ModifyDate>,
    c: Seq<FileHandle>,
    n: nat,
)
    requires
        1 <= n,
    ensures
        0 <= keeper_index(types, dates, c, n) < n,
    decreases n,
{
    if n > 1 {
        lemma_keeper_in_range(types, dates, c, (n - 1) as nat);
    }
}

/// Appending an element that a sequence without repetition lacks keeps it
/// without repetition.
proof fn lemma_push_distinct(s: Seq<FileHandle>, h: FileHandle)
    requires
        s.no_duplicates(),
        !s.contains(h),
    ensures
        s.push(h).no_duplicates(),
{
    assert forall|i: int, j: int|
        0 <= i < s.push(h).len() && 0 <= j < s.push(h).len() && i != j implies s.push(h)[i]
        != s.push(h)[j] by {
        if i < s.len() {
            assert(s.contains(s[i]));
        }
        if j < s.len() {
            assert(s.contains(s[j]));
        }
    }
}

/// The two lists of a group without repeated handles have no repetition
/// and no handle in common.
pub proof fn lemma_lists_distinct(g: GroupView)
    requires
        handles_of(g).no_duplicates(),
    ensures
        g.images.no_duplicates(),
        g.videos.no_duplicates(),
        forall|h: FileHandle| !(g.images.contains(h) && g.videos.contains(h)),
{
    let all = handles_of(g);
    assert forall|i: int, j: int|
        0 <= i < g.images.len() && 0 <= j < g.images.len() && i != j implies g.images[i]
        != g.images[j] by {
        assert(all[i] == g.images[i] && all[j] == g.images[j]);
    }
    assert forall|i: int, j: int|
        0 <= i < g.videos.len() && 0 <= j < g.videos.len() && i != j implies g.videos[i]
        != g.videos[j] by {
        assert(all[g.images.len() + i] == g.videos[i] && all[g.images.len() + j] == g.videos[j]);
    }
    assert forall|h: FileHandle| !(g.images.contains(h) && g.videos.contains(h)) by {
        if g.images.contains(h) && g.videos.contains(h) {
            let i = choose|i: int| 0 <= i < g.images.len() && g.images[i] == h;
            let j = choose|j: int| 0 <= j < g.videos.len() && g.videos[j] == h;
            assert(all[i] == h && all[g.images.len() + j] == h);
        }
    }
}

/// A handle that joins a group is then among its handles, beside those
/// that were; and a group without repeated handles stays so if the handle is
/// new to it.
proof fn lemma_with_member(g: GroupView, class: MediaClass, h: FileHandle)
    ensures
        forall|k: FileHandle|
            #![trigger handles_of(with_member(g, class, h)).contains(k)]
            handles_of(with_member(g, class, h)).contains(k) <==> (k == h || handles_of(
                g,
            ).contains(k)),
        handles_of(g).no_duplicates() && !handles_of(g).contains(h) ==> handles_of(
            with_member(g, class, h),
        ).no_duplicates(),
{
    let g2 = with_member(g, class, h);
    assert forall|k: FileHandle| #![trigger handles_of(g2).contains(k)]
        handles_of(g2).contains(k) <==> (k == h || handles_of(g).contains(k)) by {
        lemma_add_contains(g.images, g.videos, k);
        lemma_add_contains(g2.images, g2.videos, k);
        lemma_push_contains(g.images, h, k);
        lemma_push_contains(g.videos, h, k);
    }
    if handles_of(g).no_duplicates() && !handles_of(g).contains(h) {
        lemma_lists_distinct(g);
        lemma_add_contains(g.images, g.videos, h);
        assert forall|k: FileHandle| !(g2.images.contains(k) && g2.videos.contains(k)) by {
            lemma_push_contains(g.images, h, k);
            lemma_push_contains(g.videos, h, k);
        }
        match class {
            MediaClass::Image => lemma_push_distinct(g.images, h),
            MediaClass::Video => lemma_push_distinct(g.videos, h),
        }
        lemma_add_distinct(g2.images, g2.videos);
    }
}

/// Linking a handle that is not linked yet keeps the groups well linked,
/// and links that handle and no other.
pub proof fn lemma_add_member(groups: Groups, id: Seq<char>, class: MediaClass, h: FileHandle)
    requires
        well_linked(groups),
        !occurs(groups, h),
    ensures
        well_linked(add_member(groups, id, class, h)),
        forall|k: FileHandle|
            #![trigger occurs(add_member(groups, id, class, h), k)]
            occurs(add_member(groups, id, class, h), k) <==> (k == h || occurs(groups, k)),
{
    let after = add_member(groups, id, class, h);
    if has_group(groups, id) {
        let i = choose|i: int| 0 <= i < groups.len() && (#[trigger] groups[i]).session_id == id;
        lemma_with_member(groups[i], class, h);
        assert(after.len() == groups.len());
        assert forall|j: int| 0 <= j < after.len() && j != i implies #[trigger] after[j]
            == groups[j] by {}
        assert(after[i] == with_member(groups[i], class, h));
        assert(distinct_ids(after)) by {
            assert forall|a: int, b: int| 0 <= a < b < after.len() implies (#[trigger] after[a]).session_id
                != (#[trigger] after[b]).session_id by {
                assert(after[a].session_id == groups[a].session_id);
                assert(after[b].session_id == groups[b].session_id);
            }
        }
        assert forall|j: int| 0 <= j < after.len() implies (#[trigger] handles_of(
            after[j],
        )).no_duplicates() by {
            assert(handles_of(groups[j]).no_duplicates());
            if j == i {
                assert(!handles_of(groups[i]).contains(h));
            }
        }
        assert forall|a: int, b: int, k: FileHandle| 0 <= a < b < after.len() implies !(
        #[trigger] handles_of(after[a]).contains(k) && #[trigger] handles_of(after[b]).contains(
            k,
        )) by {
            assert(!(handles_of(groups[a]).contains(k) && handles_of(groups[b]).contains(k)));
            assert(!handles_of(groups[a]).contains(h));
            assert(!handles_of(groups[b]).contains(h));
        }
        assert forall|k: FileHandle| #![trigger occurs(after, k)]
            occurs(after, k) <==> (k == h || occurs(groups, k)) by {
            if occurs(after, k) {
                let j = choose|j: int|
                    0 <= j < after.len() && #[trigger] handles_of(after[j]).contains(k);
                if k != h {
                    assert(handles_of(groups[j]).contains(k));
                }
            }
            if k == h {
                assert(handles_of(after[i]).contains(k));
            }
            if occurs(groups, k) {
                let j = choose|j: int|
                    0 <= j < groups.len() && #[trigger] handles_of(groups[j]).contains(k);
                assert(handles_of(after[j]).contains(k));
            }
        }
    } else {
        let g = GroupView { session_id: id, images: Seq::empty(), videos: Seq::empty() };
        lemma_with_member(g, class, h);
        assert(handles_of(g) =~= Seq::<FileHandle>::empty());
        assert(after.len() == groups.len() + 1);
        assert forall|j: int| 0 <= j < groups.len() implies #[trigger] after[j] == groups[j] by {}
        assert(after[groups.len() as int] == with_member(g, class, h));
        assert(distinct_ids(after)) by {
            assert forall|a: int, b: int| 0 <= a < b < after.len() implies (#[trigger] after[a]).session_id
                != (#[trigger] after[b]).session_id by {
                assert(after[a] == groups[a]);
                if b < groups.len() {
                    assert(after[b] == groups[b]);
                } else {
                    assert(groups[a].session_id != id);
                }
            }
        }
        assert forall|j: int| 0 <= j < after.len() implies (#[trigger] handles_of(
            after[j],
        )).no_duplicates() by {
            if j < groups.len() {
                assert(handles_of(groups[j]).no_duplicates());
            }
        }
        assert forall|a: int, b: int, k: FileHandle| 0 <= a < b < after.len() implies !(
        #[trigger] handles_of(after[a]).contains(k) && #[trigger] handles_of(after[b]).contains(
            k,
        )) by {
            assert(after[a] == groups[a]);
            if b < groups.len() {
                assert(!(handles_of(groups[a]).contains(k) && handles_of(groups[b]).contains(k)));
            } else {
                assert(!handles_of(groups[a]).contains(h));
            }
        }
        assert forall|k: FileHandle| #![trigger occurs(after, k)]
            occurs(after, k) <==> (k == h || occurs(groups, k)) by {
            if occurs(after, k) {
                let j = choose|j: int|
                    0 <= j < after.len() && #[trigger] handles_of(after[j]).contains(k);
                if j < groups.len() {
                    assert(handles_of(groups[j]).contains(k));
                }
            }
            if k == h {
                assert(handles_of(after[groups.len() as int]).contains(k));
            }
            if occurs(groups, k) {
                let j = choose|j: int|
                    0 <= j < groups.len() && #[trigger] handles_of(groups[j]).contains(k);
                assert(handles_of(after[j]).contains(k));
            }
        }
    }
}

/// The groups formed from a listing without repeated handles are well
/// linked, and every linked handle is one of the listing that qualifies.
pub proof fn lemma_linked(media: Seq<(FileHandle, Metadata)>, n: nat)
    requires
        n <= media.len(),
        distinct_listing(media),
    ensures
        well_linked(linked(media, n)),
        forall|h: FileHandle|
            #![trigger occurs(linked(media, n), h)]
            occurs(linked(media, n), h) <==> exists|i: int|
                0 <= i < n && (#[trigger] media[i]).0 == h && link_class(media[i].1)
                    is Some,
    decreases n,
{
    if n == 0 {
        assert forall|h: FileHandle| !occurs(linked(media, n), h) by {}
    } else {
        let before = linked(media, (n - 1) as nat);
        let h0 = media[n - 1].0;
        let m = media[n - 1].1;
        lemma_linked(media, (n - 1) as nat);
        if occurs(before, h0) {
            let i = choose|i: int|
                0 <= i < n - 1 && (#[trigger] media[i]).0 == h0 && link_class(media[i].1)
                    is Some;
            assert(media[i].0 != media[n - 1].0);
        }
        match link_class(m) {
            Some(class) => {
                lemma_add_member(before, m.content_identifier->0@, class, h0);
            },
            None => {},
        }
        assert forall|h: FileHandle| #![trigger occurs(linked(media, n), h)]
            occurs(linked(media, n), h) <==> exists|i: int|
                0 <= i < n && (#[trigger] media[i]).0 == h && link_class(media[i].1)
                    is Some by {
            if occurs(before, h) {
                let i = choose|i: int|
                    0 <= i < n - 1 && (#[trigger] media[i]).0 == h && link_class(media[i].1)
                        is Some;
                assert(media[i].0 == h);
            }
            if exists|i: int|
                0 <= i < n && (#[trigger] media[i]).0 == h && link_class(media[i].1)
                    is Some {
                let i = choose|i: int|
                    0 <= i < n && (#[trigger] media[i]).0 == h && link_class(media[i].1)
                        is Some;
                if i < n - 1 {
                    assert(media[i].0 == h);
                    assert(occurs(before, h));
                }
            }
            if h == h0 && link_class(m) is Some {
                assert(media[n - 1].0 == h);
            }
        }
    }
}

/// The duplicates of one group: those of its images, then those of its
/// videos.
pub open spec fn doomed_of(
    types: Map<FileHandle, String>,
    dates: Map<FileHandle, ModifyDate>,
    g: GroupView,
) -> Seq<FileHandle> {
    duplicates_in(types, dates, g.images) + duplicates_in(types, dates, g.videos)
}

/// The duplicates of every group, group by group.
pub open spec fn doomed_parts(
    types: Map<FileHandle, String>,
    dates: Map<FileHandle, ModifyDate>,
    groups: Groups,
) -> Seq<Seq<FileHandle>> {
    Seq::new(groups.len(), |i: int| doomed_of(types, dates, groups[i]))
}

/// Every handle that duplicate resolution drops, in group order.
pub open spec fn doomed(
    types: Map<FileHandle, String>,
    dates: Map<FileHandle, ModifyDate>,
    groups: Groups,
) -> Seq<FileHandle> {
    concat_all(doomed_parts(types, dates, groups))
}

/// The duplicates that the reports name, report by report.
pub open spec fn flat_duplicates(reports: Seq<(FileHandle, Seq<FileHandle>)>) -> Seq<FileHandle> {
    concat_all(reports.map_values(|r: (FileHandle, Seq<FileHandle>)| r.1))
}

/// The kept file is the first candidate that no candidate beats: none
/// beats it, and it beats every candidate before it.
pub proof fn lemma_keeper_is_first_best(
    types: Map<FileHandle, String>,
    dates: Map<FileHandle, ModifyDate>,
    c: Seq<FileHandle>,
    n: nat,
)
    requires
        1 <= n <= c.len(),
    ensures
        0 <= keeper_index(types, dates, c, n) < n,
        forall|j: int|
            0 <= j < n ==> !beats(
                types,
                dates,
                #[trigger] c[j],
                c[keeper_index(types, dates, c, n)],
            ),
        forall|j: int|
            0 <= j < keeper_index(types, dates, c, n) ==> beats(
                types,
                dates,
                c[keeper_index(types, dates, c, n)],
                #[trigger] c[j],
            ),
    decreases n,
{
    if n > 1 {
        lemma_keeper_is_first_best(types, dates, c, (n - 1) as nat);
        let k0 = keeper_index(types, dates, c, (n - 1) as nat);
        let k = keeper_index(types, dates, c, n);
        assert forall|j: int| 0 <= j < n implies !beats(types, dates, #[trigger] c[j], c[k]) by {
            if j < n - 1 {
                assert(!beats(types, dates, c[j], c[k0]));
            }
        }
        assert forall|j: int| 0 <= j < k implies beats(types, dates, c[k], #[trigger] c[j]) by {
            assert(!beats(types, dates, c[j], c[k0]));
            if j < k0 {
                assert(beats(types, dates, c[k0], c[j]));
            }
        }
    }
}

/// Of two candidates the second is kept exactly if it beats the first: it
/// alone has the preferred format, or they do not differ in that and it was
/// modified later. Otherwise the first is kept.
pub proof fn lemma_two_candidates(
    types: Map<FileHandle, String>,
    dates: Map<FileHandle, ModifyDate>,
    a: FileHandle,
    b: FileHandle,
)
    ensures
        resolved(types, dates, seq![a, b]) == (if beats(types, dates, b, a) {
            seq![b]
        } else {
            seq![a]
        }),
        duplicates_in(types, dates, seq![a, b]) == (if beats(types, dates, b, a) {
            seq![a]
        } else {
            seq![b]
        }),
{
    let c = seq![a, b];
    reveal_with_fuel(keeper_index, 3);
    assert(keeper_index(types, dates, c, 1) == 0);
    assert(c[0] == a && c[1] == b);
    let k = keeper_position(types, dates, c);
    assert(k == (if beats(types, dates, b, a) {
        1int
    } else {
        0int
    }));
    assert(resolved(types, dates, c) =~= seq![c[k]]);
    assert(c.remove(k) =~= (if k == 1 {
        seq![a]
    } else {
        seq![b]
    }));
}

/// Resolving a list without repeated handles splits it: the kept file and
/// the duplicates are handles of the list, without repetition, and no
/// handle is both.
pub proof fn lemma_resolved_class(
    types: Map<FileHandle, String>,
    dates: Map<FileHandle, ModifyDate>,
    c: Seq<FileHandle>,
)
    requires
        c.no_duplicates(),
    ensures
        resolved(types, dates, c).no_duplicates(),
        duplicates_in(types, dates, c).no_duplicates(),
        resolved(types, dates, c).len() <= 1,
        forall|h: FileHandle|
            #![trigger resolved(types, dates, c).contains(h)]
            #![trigger duplicates_in(types, dates, c).contains(h)]
            c.contains(h) <==> (resolved(types, dates, c).contains(h) || duplicates_in(
                types,
                dates,
                c,
            ).contains(h)),
        forall|h: FileHandle|
            !(resolved(types, dates, c).contains(h) && #[trigger] duplicates_in(
                types,
                dates,
                c,
            ).contains(h)),
{
    if c.len() > 1 {
        let k = keeper_position(types, dates, c);
        lemma_keeper_in_range(types, dates, c, c.len());
        lemma_remove_distinct(c, k);
        let kept = seq![c[k]];
        assert(kept[0] == c[k]);
        assert forall|h: FileHandle| kept.contains(h) <==> h == c[k] by {
            if h == c[k] {
                assert(kept[0] == h);
            }
        }
        assert(c.contains(c[k]));
    } else {
        assert forall|h: FileHandle| !Seq::<FileHandle>::empty().contains(h) by {}
    }
}

/// Resolving a group without repeated handles splits it in the same way.
pub proof fn lemma_dedup_group(
    types: Map<FileHandle, String>,
    dates: Map<FileHandle, ModifyDate>,
    g: GroupView,
)
    requires
        handles_of(g).no_duplicates(),
    ensures
        handles_of(dedup_group(types, dates, g)).no_duplicates(),
        doomed_of(types, dates, g).no_duplicates(),
        forall|h: FileHandle|
            #![trigger handles_of(dedup_group(types, dates, g)).contains(h)]
            #![trigger doomed_of(types, dates, g).contains(h)]
            handles_of(g).contains(h) <==> (handles_of(dedup_group(types, dates, g)).contains(h)
                || doomed_of(types, dates, g).contains(h)),
        forall|h: FileHandle|
            !(handles_of(dedup_group(types, dates, g)).contains(h) && #[trigger] doomed_of(
                types,
                dates,
                g,
            ).contains(h)),
{
    lemma_lists_distinct(g);
    lemma_resolved_class(types, dates, g.images);
    lemma_resolved_class(types, dates, g.videos);
    let ri = resolved(types, dates, g.images);
    let rv = resolved(types, dates, g.videos);
    let di = duplicates_in(types, dates, g.images);
    let dv = duplicates_in(types, dates, g.videos);
    assert forall|h: FileHandle| !(ri.contains(h) && rv.contains(h)) by {}
    assert forall|h: FileHandle| !(di.contains(h) && dv.contains(h)) by {}
    lemma_add_distinct(ri, rv);
    lemma_add_distinct(di, dv);
    assert forall|h: FileHandle|
        #![trigger handles_of(dedup_group(types, dates, g)).contains(h)]
        #![trigger doomed_of(types, dates, g).contains(h)]
        (handles_of(g).contains(h) <==> (handles_of(dedup_group(types, dates, g)).contains(h)
            || doomed_of(types, dates, g).contains(h))) && !(handles_of(
            dedup_group(types, dates, g),
        ).contains(h) && doomed_of(types, dates, g).contains(h)) by {
        lemma_add_contains(g.images, g.videos, h);
        lemma_add_contains(ri, rv, h);
        lemma_add_contains(di, dv, h);
    }
}

/// Groups that only lose handles stay well linked, and link no handle that
/// was not linked.
pub proof fn lemma_shrunk(groups: Groups, after: Groups)
    requires
        well_linked(groups),
        after.len() == groups.len(),
        forall|i: int|
            0 <= i < groups.len() ==> (#[trigger] after[i]).session_id == groups[i].session_id,
        forall|i: int|
            0 <= i < groups.len() ==> (#[trigger] handles_of(after[i])).no_duplicates(),
        forall|i: int, h: FileHandle|
            0 <= i < groups.len() && #[trigger] handles_of(after[i]).contains(h) ==> handles_of(
                groups[i],
            ).contains(h),
    ensures
        well_linked(after),
        forall|h: FileHandle| #[trigger] occurs(after, h) ==> occurs(groups, h),
{
    assert forall|a: int, b: int| 0 <= a < b < after.len() implies (#[trigger] after[a]).session_id
        != (#[trigger] after[b]).session_id by {
        assert(groups[a].session_id != groups[b].session_id);
    }
    assert forall|a: int, b: int, h: FileHandle| 0 <= a < b < after.len() implies !(
    #[trigger] handles_of(after[a]).contains(h) && #[trigger] handles_of(after[b]).contains(h)) by {
        assert(!(handles_of(groups[a]).contains(h) && handles_of(groups[b]).contains(h)));
    }
    assert forall|h: FileHandle| #[trigger] occurs(after, h) implies occurs(groups, h) by {
        let i = choose|i: int| 0 <= i < after.len() && #[trigger] handles_of(after[i]).contains(h);
        assert(handles_of(groups[i]).contains(h));
    }
}

/// Handles picked group by group from well linked groups come out without
/// repetition, each of them linked; and none of them is linked in groups
/// that kept, of each group, only handles that were not picked.
pub proof fn lemma_picked(groups: Groups, after: Groups, parts: Seq<Seq<FileHandle>>)
    requires
        well_linked(groups),
        after.len() == groups.len(),
        parts.len() == groups.len(),
        forall|i: int| 0 <= i < groups.len() ==> (#[trigger] parts[i]).no_duplicates(),
        forall|i: int, h: FileHandle|
            0 <= i < groups.len() && #[trigger] parts[i].contains(h) ==> handles_of(
                groups[i],
            ).contains(h) && !handles_of(after[i]).contains(h),
        forall|i: int, h: FileHandle|
            0 <= i < groups.len() && #[trigger] handles_of(after[i]).contains(h) ==> handles_of(
                groups[i],
            ).contains(h),
    ensures
        concat_all(parts).no_duplicates(),
        forall|h: FileHandle|
            #[trigger] concat_all(parts).contains(h) ==> occurs(groups, h) && !occurs(after, h),
{
    assert forall|i: int, j: int, h: FileHandle| 0 <= i < j < parts.len() implies !(
    #[trigger] parts[i].contains(h) && #[trigger] parts[j].contains(h)) by {
        assert(!(handles_of(groups[i]).contains(h) && handles_of(groups[j]).contains(h)));
    }
    lemma_concat_distinct(parts, parts.len());
    lemma_concat_members(parts, parts.len());
    assert forall|h: FileHandle| #[trigger] concat_all(parts).contains(h) implies occurs(groups, h)
        && !occurs(after, h) by {
        let i = choose|i: int| 0 <= i < parts.len() && #[trigger] parts[i].contains(h);
        assert(handles_of(groups[i]).contains(h));
        if occurs(after, h) {
            let j = choose|j: int|
                0 <= j < after.len() && #[trigger] handles_of(after[j]).contains(h);
            assert(handles_of(groups[j]).contains(h));
            if i < j {
                assert(!(handles_of(groups[i]).contains(h) && handles_of(groups[j]).contains(h)));
            } else if j < i {
                assert(!(handles_of(groups[j]).contains(h) && handles_of(groups[i]).contains(h)));
            }
        }
    }
}

/// Resolving duplicates keeps the groups well linked. The dropped handles
/// were linked, come without repetition, and are linked no more; nothing
/// else changes in what is linked.
pub proof fn lemma_deduplicated(
    types: Map<FileHandle, String>,
    dates: Map<FileHandle, ModifyDate>,
    groups: Groups,
)
    requires
        well_linked(groups),
    ensures
        well_linked(deduplicated(types, dates, groups)),
        doomed(types, dates, groups).no_duplicates(),
        forall|h: FileHandle|
            #[trigger] doomed(types, dates, groups).contains(h) ==> occurs(groups, h) && !occurs(
                deduplicated(types, dates, groups),
                h,
            ),
        forall|h: FileHandle|
            #[trigger] occurs(deduplicated(types, dates, groups), h) ==> occurs(groups, h),
{
    let after = deduplicated(types, dates, groups);
    let parts = doomed_parts(types, dates, groups);
    assert forall|i: int| 0 <= i < groups.len() implies (#[trigger] handles_of(
        after[i],
    )).no_duplicates() by {
        lemma_dedup_group(types, dates, groups[i]);
    }
    assert forall|i: int| 0 <= i < groups.len() implies (#[trigger] parts[i]).no_duplicates() by {
        lemma_dedup_group(types, dates, groups[i]);
    }
    assert forall|i: int, h: FileHandle|
        0 <= i < groups.len() && #[trigger] parts[i].contains(h) implies handles_of(
        groups[i],
    ).contains(h) && !handles_of(after[i]).contains(h) by {
        lemma_dedup_group(types, dates, groups[i]);
    }
    assert forall|i: int, h: FileHandle|
        0 <= i < groups.len() && #[trigger] handles_of(after[i]).contains(h) implies handles_of(
        groups[i],
    ).contains(h) by {
        lemma_dedup_group(types, dates, groups[i]);
    }
    lemma_shrunk(groups, after);
    lemma_picked(groups, after, parts);
}

/// Dropping leftover videos keeps the groups well linked. The dropped
/// handles were linked, come without repetition, and are linked no more;
/// nothing else changes in what is linked.
pub proof fn lemma_without_leftover(groups: Groups)
    requires
        well_linked(groups),
    ensures
        well_linked(without_leftover(groups)),
        leftover_videos(groups).no_duplicates(),
        forall|h: FileHandle|
            #[trigger] leftover_videos(groups).contains(h) ==> occurs(groups, h) && !occurs(
                without_leftover(groups),
                h,
            ),
        forall|h: FileHandle| #[trigger] occurs(without_leftover(groups), h) ==> occurs(groups, h),
{
    let after = without_leftover(groups);
    let parts = leftover_parts(groups);
    assert forall|i: int| 0 <= i < groups.len() implies (#[trigger] handles_of(
        after[i],
    )).no_duplicates() by {
        assert(handles_of(groups[i]).no_duplicates());
        if groups[i].images.len() == 0 {
            assert(handles_of(after[i]) =~= Seq::<FileHandle>::empty());
        }
    }
    assert forall|i: int| 0 <= i < groups.len() implies (#[trigger] parts[i]).no_duplicates() by {
        assert(handles_of(groups[i]).no_duplicates());
        lemma_lists_distinct(groups[i]);
    }
    assert forall|i: int, h: FileHandle|
        0 <= i < groups.len() && #[trigger] parts[i].contains(h) implies handles_of(
        groups[i],
    ).contains(h) && !handles_of(after[i]).contains(h) by {
        lemma_add_contains(groups[i].images, groups[i].videos, h);
        if groups[i].images.len() == 0 {
            assert(handles_of(after[i]) =~= Seq::<FileHandle>::empty());
        }
    }
    assert forall|i: int, h: FileHandle|
        0 <= i < groups.len() && #[trigger] handles_of(after[i]).contains(h) implies handles_of(
        groups[i],
    ).contains(h) by {
        if groups[i].images.len() == 0 {
            assert(handles_of(after[i]) =~= Seq::<FileHandle>::empty());
        }
    }
    lemma_shrunk(groups, after);
    lemma_picked(groups, after, parts);
}

/// The duplicates named by reports that follow one another are those of
/// the first reports followed by those of the second.
proof fn lemma_flat_add(
    a: Seq<(FileHandle, Seq<FileHandle>)>,
    b: Seq<(FileHandle, Seq<FileHandle>)>,
)
    ensures
        flat_duplicates(a + b) == flat_duplicates(a) + flat_duplicates(b),
{
    let f = |r: (FileHandle, Seq<FileHandle>)| r.1;
    assert((a + b).map_values(f) =~= a.map_values(f) + b.map_values(f));
    lemma_concat_append(a.map_values(f), b.map_values(f), b.len());
}

/// The duplicates named in the report of one list are the duplicates of
/// that list.
proof fn lemma_flat_class(
    types: Map<FileHandle, String>,
    dates: Map<FileHandle, ModifyDate>,
    c: Seq<FileHandle>,
)
    ensures
        flat_duplicates(class_report(types, dates, c)) == duplicates_in(types, dates, c),
{
    let f = |r: (FileHandle, Seq<FileHandle>)| r.1;
    let parts = class_report(types, dates, c).map_values(f);
    if c.len() > 1 {
        assert(parts.len() == 1);
        assert(concat(parts, 1) == concat(parts, 0) + parts[0]);
        assert(concat(parts, 1) =~= duplicates_in(types, dates, c));
    } else {
        assert(parts.len() == 0);
    }
}

/// The duplicates that the reports of the first `n` groups name are the
/// handles that resolution drops from those groups.
proof fn lemma_flat_reports_upto(
    types: Map<FileHandle, String>,
    dates: Map<FileHandle, ModifyDate>,
    groups: Groups,
    n: nat,
)
    requires
        n <= groups.len(),
    ensures
        flat_duplicates(concat(report_parts(types, dates, groups), n)) == concat(
            doomed_parts(types, dates, groups),
            n,
        ),
    decreases n,
{
    let f = |r: (FileHandle, Seq<FileHandle>)| r.1;
    if n == 0 {
        assert(concat(report_parts(types, dates, groups), 0).map_values(f).len() == 0);
    } else {
        lemma_flat_reports_upto(types, dates, groups, (n - 1) as nat);
        let g = groups[n - 1];
        lemma_flat_add(
            concat(report_parts(types, dates, groups), (n - 1) as nat),
            group_reports(types, dates, g),
        );
        lemma_flat_add(class_report(types, dates, g.images), class_report(types, dates, g.videos));
        lemma_flat_class(types, dates, g.images);
        lemma_flat_class(types, dates, g.videos);
    }
}

/// The duplicates that the reports name are exactly the handles that
/// resolution drops, in the same order.
pub proof fn lemma_flat_reports(
    types: Map<FileHandle, String>,
    dates: Map<FileHandle, ModifyDate>,
    groups: Groups,
)
    ensures
        flat_duplicates(duplicate_reports(types, dates, groups)) == doomed(types, dates, groups),
{
    lemma_flat_reports_upto(types, dates, groups, groups.len());
}

/// A group of one video and no image: resolution reports nothing for it
/// and leaves it as it is, and the video is its one leftover.
pub proof fn lemma_lone_video(
    types: Map<FileHandle, String>,
    dates: Map<FileHandle, ModifyDate>,
    g: GroupView,
)
    requires
        g.images.len() == 0,
        g.videos.len() == 1,
    ensures
        group_reports(types, dates, g).len() == 0,
        doomed_of(types, dates, g).len() == 0,
        dedup_group(types, dates, g) == g,
        leftover_of(g) == seq![g.videos[0]],
{
    assert(g.videos =~= seq![g.videos[0]]);
}

/// A group of one image and one video: neither resolution nor leftover
/// detection reports anything for it or changes it, and iteration yields
/// it once, with both lists as they are.
pub proof fn lemma_complete_pair(
    types: Map<FileHandle, String>,
    dates: Map<FileHandle, ModifyDate>,
    g: GroupView,
)
    requires
        g.images.len() == 1,
        g.videos.len() == 1,
    ensures
        group_reports(types, dates, g).len() == 0,
        doomed_of(types, dates, g).len() == 0,
        leftover_of(g).len() == 0,
        dedup_group(types, dates, g) == g,
        without_leftover_of(g) == g,
        listing_of(g) == seq![(g.images, g.videos)],
{
}

/// Once duplicates are resolved, no group has more than one image or more
/// than one video: iteration yields no longer list, and resolving again,
/// with whatever lookups, reports nothing and changes nothing.
pub proof fn lemma_resolution_is_final(
    types: Map<FileHandle, String>,
    dates: Map<FileHandle, ModifyDate>,
    later_types: Map<FileHandle, String>,
    later_dates: Map<FileHandle, ModifyDate>,
    groups: Groups,
)
    ensures
        forall|i: int|
            0 <= i < groups.len() ==> (#[trigger] deduplicated(types, dates, groups)[i]).images.len()
                <= 1 && deduplicated(types, dates, groups)[i].videos.len() <= 1,
        forall|e: (Seq<FileHandle>, Seq<FileHandle>)|
            #[trigger] listing(deduplicated(types, dates, groups)).contains(e) ==> e.0.len() <= 1
                && e.1.len() <= 1,
        duplicate_reports(later_types, later_dates, deduplicated(types, dates, groups)).len() == 0,
        deduplicated(later_types, later_dates, deduplicated(types, dates, groups)) == deduplicated(
            types,
            dates,
            groups,
        ),
{
    let after = deduplicated(types, dates, groups);
    let parts = listing_parts(after);
    lemma_concat_members(parts, parts.len());
    assert forall|e: (Seq<FileHandle>, Seq<FileHandle>)| #[trigger]
        listing(after).contains(e) implies e.0.len() <= 1 && e.1.len() <= 1 by {
        let i = choose|i: int| 0 <= i < parts.len() && #[trigger] parts[i].contains(e);
        let j = choose|j: int| 0 <= j < parts[i].len() && parts[i][j] == e;
        assert(e == (after[i].images, after[i].videos));
    }
    lemma_concat_empty(report_parts(later_types, later_dates, after), after.len());
    assert(deduplicated(later_types, later_dates, after) =~= after);
}

/// The list that `m` is linked into, if any.
pub fn classify_for_linking(m: &Metadata) -> (r: Option<MediaClass>)
    ensures
        r == link_class(*m),
{
    if m.content_identifier.is_none() {
        return None;
    }
    let format = m.file_type.as_str();
    if str_eq(format, "JPEG") || str_eq(format, "HEIC") {
        Some(MediaClass::Image)
    } else if str_eq(format, "MOV") && (opt_str_is(&m.compressor_id, "avc1") || opt_str_is(
        &m.compressor_id,
        "hev1",
    )) {
        Some(MediaClass::Video)
    } else {
        None
    }
}

/// The duplicates that the reports name, report by report.
pub fn flatten_duplicates(reports: &Vec<(FileHandle, Vec<FileHandle>)>) -> (r: Vec<FileHandle>)
    ensures
        r@ == flat_duplicates(report_views(reports@)),
{
    let ghost parts = report_views(reports@).map_values(|r: (FileHandle, Seq<FileHandle>)| r.1);
    let mut out: Vec<FileHandle> = Vec::new();
    let mut i: usize = 0;
    while i < reports.len()
        invariant
            i <= reports@.len(),
            parts == report_views(reports@).map_values(|r: (FileHandle, Seq<FileHandle>)| r.1),
            out@ == concat(parts, i as nat),
        decreases reports@.len() - i,
    {
        let mut duplicates = copy_handles(&reports[i].1);
        assert(parts[i as int] == reports@[i as int].1@);
        out.append(&mut duplicates);
        i += 1;
    }
    out
}

/// A copy of a list of handles.
pub fn copy_handles(v: &Vec<FileHandle>) -> (r: Vec<FileHandle>)
    ensures
        r@ == v@,
{
    let mut out: Vec<FileHandle> = Vec::new();
    let mut i: usize = 0;
    while i < v.len()
        invariant
            i <= v@.len(),
            out@ == v@.take(i as int),
        decreases v@.len() - i,
    {
        out.push(v[i]);
        assert(out@ =~= v@.take(i + 1));
        i += 1;
    }
    assert(v@.take(i as int) =~= v@);
    out
}

/// Whether `a` is a better file to keep than `b`.
fn is_better(
    types: &HashMap<FileHandle, String>,
    dates: &HashMap<FileHandle, ModifyDate>,
    a: FileHandle,
    b: FileHandle,
) -> (r: bool)
    requires
        types@.contains_key(a),
        types@.contains_key(b),
        dates@.contains_key(a),
        dates@.contains_key(b),
    ensures
        r == beats(types@, dates@, a, b),
{
    let pa = match types.get(&a) {
        Some(t) => str_eq(t.as_str(), "HEIC"),
        None => false,
    };
    let pb = match types.get(&b) {
        Some(t) => str_eq(t.as_str(), "HEIC"),
        None => false,
    };
    let later = match dates.get(&a) {
        Some(x) => match dates.get(&b) {
            Some(y) => x.is_later_than(y),
            None => false,
        },
        None => false,
    };
    (pa && !pb) || (pa == pb && later)
}

/// The position of the file to keep.
fn best_position(
    class: &Vec<FileHandle>,
    types: &HashMap<FileHandle, String>,
    dates: &HashMap<FileHandle, ModifyDate>,
) -> (k: usize)
    requires
        class@.len() >= 1,
        forall|j: int|
            0 <= j < class@.len() ==> types@.contains_key(#[trigger] class@[j])
                && dates@.contains_key(class@[j]),
    ensures
        k == keeper_position(types@, dates@, class@),
        k < class@.len(),
{
    let mut k: usize = 0;
    let mut i: usize = 1;
    while i < class.len()
        invariant
            1 <= i <= class@.len(),
            k < i,
            k == keeper_index(types@, dates@, class@, i as nat),
            forall|j: int|
                0 <= j < class@.len() ==> types@.contains_key(#[trigger] class@[j])
                    && dates@.contains_key(class@[j]),
        decreases class@.len() - i,
    {
        if is_better(types, dates, class[i], class[k]) {
            k = i;
        }
        i += 1;
    }
    k
}

/// Resolves the duplicates of one list, and reports them.
fn resolve(
    class: &mut Vec<FileHandle>,
    types: &HashMap<FileHandle, String>,
    dates: &HashMap<FileHandle, ModifyDate>,
    reports: &mut Vec<(FileHandle, Vec<FileHandle>)>,
)
    requires
        old(class)@.len() > 1 ==> forall|j: int|
            0 <= j < old(class)@.len() ==> types@.contains_key(#[trigger] old(class)@[j])
                && dates@.contains_key(old(class)@[j]),
    ensures
        final(class)@ == resolved(types@, dates@, old(class)@),
        report_views(final(reports)@) == report_views(old(reports)@) + class_report(
            types@,
            dates@,
            old(class)@,
        ),
{
    if class.len() > 1 {
        let k = best_position(class, types, dates);
        let keep = class[k];
        let mut duplicates: Vec<FileHandle> = Vec::new();
        let mut i: usize = 0;
        while i < class.len()
            invariant
                i <= class@.len(),
                k < class@.len(),
                class@ == old(class)@,
                duplicates@ == (if i <= k {
                    class@.take(i as int)
                } else {
                    class@.take(i as int).remove(k as int)
                }),
            decreases class@.len() - i,
        {
            if i != k {
                duplicates.push(class[i]);
            }
            assert(duplicates@ =~= (if i + 1 <= k {
                class@.take(i + 1)
            } else {
                class@.take(i + 1).remove(k as int)
            }));
            i += 1;
        }
        assert(class@.take(i as int) =~= class@);
        class.clear();
        class.push(keep);
        assert(class@ =~= resolved(types@, dates@, old(class)@));
        reports.push((keep, duplicates));
        assert(report_views(reports@) =~= report_views(old(reports)@) + class_report(
            types@,
            dates@,
            old(class)@,
        ));
    } else {
        assert(report_views(reports@) =~= report_views(old(reports)@) + class_report(
            types@,
            dates@,
            old(class)@,
        ));
    }
}

struct Group {
    session_id: String,
    images: Vec<FileHandle>,
    videos: Vec<FileHandle>,
}

impl View for Group {
    type V = GroupView;

    closed spec fn view(&self) -> GroupView {
        GroupView { session_id: self.session_id@, images: self.images@, videos: self.videos@ }
    }
}

/// The image and video handles of every capture session.
pub struct LivePhotoLinker {
    groups: Vec<Group>,
}

impl View for LivePhotoLinker {
    type V = Groups;

    closed spec fn view(&self) -> Groups {
        self.groups@.map_values(|g: Group| g@)
    }
}

impl LivePhotoLinker {
    /// The linker's invariant.
    pub open spec fn wf(&self) -> bool {
        well_linked(self@)
    }

    /// Links the media entries of a catalog, in the order given.
    pub fn new(media: Vec<(FileHandle, &Entry)>) -> (r: LivePhotoLinker)
        requires
            distinct_listing(tagged(media@)),
        ensures
            r.wf(),
            r@ == linked_all(tagged(media@)),
    {
        let ghost files = tagged(media@);
        let mut linker = LivePhotoLinker { groups: Vec::new() };
        assert(linker@ =~= linked(files, 0));
        let mut i: usize = 0;
        while i < media.len()
            invariant
                i <= media@.len(),
                files == tagged(media@),
                distinct_listing(files),
                linker@ == linked(files, i as nat),
            decreases media@.len() - i,
        {
            proof {
                lemma_linked(files, i as nat);
            }
            let h = media[i].0;
            let entry = media[i].1;
            linker.link(h, &entry.metadata);
            i += 1;
        }
        proof {
            lemma_linked(files, files.len());
        }
        linker
    }

    /// The position of the group of session `id`, if there is one.
    fn find_group(&self, id: &str) -> (r: Option<usize>)
        ensures
            match r {
                Some(i) => i < self@.len() && self@[i as int].session_id == id@,
                None => !has_group(self@, id@),
            },
    {
        let mut i: usize = 0;
        while i < self.groups.len()
            invariant
                i <= self.groups@.len(),
                self@.len() == self.groups@.len(),
                forall|j: int| 0 <= j < i ==> (#[trigger] self@[j]).session_id != id@,
            decreases self.groups@.len() - i,
        {
            assert(self@[i as int] == self.groups@[i as int]@);
            if str_eq(self.groups[i].session_id.as_str(), id) {
                return Some(i);
            }
            i += 1;
        }
        None
    }

    /// Considers one file for linking.
    fn link(&mut self, h: FileHandle, m: &Metadata)
        requires
            distinct_ids(old(self)@),
        ensures
            final(self)@ == link_one(old(self)@, h, *m),
    {
        let class = match classify_for_linking(m) {
            Some(class) => class,
            None => { return ; },
        };
        let id = match &m.content_identifier {
            Some(id) => id,
            None => { return ; },
        };
        match self.find_group(id.as_str()) {
            Some(i) => {
                let ghost chosen = choose|j: int|
                    0 <= j < old(self)@.len() && (#[trigger] old(self)@[j]).session_id == id@;
                assert(old(self)@[i as int].session_id == id@);
                assert(chosen == i);
                let mut g = Group {
                    session_id: String::new(),
                    images: Vec::new(),
                    videos: Vec::new(),
                };
                self.groups.set_and_swap(i, &mut g);
                assert(g@ == old(self)@[i as int]);
                match class {
                    MediaClass::Image => g.images.push(h),
                    MediaClass::Video => g.videos.push(h),
                }
                self.groups.set(i, g);
                assert(self@ =~= old(self)@.update(
                    i as int,
                    with_member(old(self)@[i as int], class, h),
                ));
            },
            None => {
                let mut g = Group {
                    session_id: id.clone(),
                    images: Vec::new(),
                    videos: Vec::new(),
                };
                match class {
                    MediaClass::Image => g.images.push(h),
                    MediaClass::Video => g.videos.push(h),
                }
                assert(g@.images =~= first_member(id@, class, h).images);
                assert(g@.videos =~= first_member(id@, class, h).videos);
                self.groups.push(g);
                assert(self@ =~= old(self)@.push(first_member(id@, class, h)));
            },
        }
    }

    /// Every handle that [`LivePhotoLinker::remove_duplicates`] looks up:
    /// the members of each list with more than one member, in group order.
    pub fn duplicate_candidates(&self) -> (r: Vec<FileHandle>)
        ensures
            r@ == candidates(self@),
    {
        let ghost parts = candidate_parts(self@);
        let mut out: Vec<FileHandle> = Vec::new();
        let mut i: usize = 0;
        while i < self.groups.len()
            invariant
                i <= self.groups@.len(),
                self@.len() == self.groups@.len(),
                parts == candidate_parts(self@),
                out@ == concat(parts, i as nat),
            decreases self.groups@.len() - i,
        {
            let g = &self.groups[i];
            assert(self@[i as int] == g@);
            let ghost before = out@;
            if g.images.len() > 1 {
                let mut images = copy_handles(&g.images);
                out.append(&mut images);
            }
            if g.videos.len() > 1 {
                let mut videos = copy_handles(&g.videos);
                out.append(&mut videos);
            }
            assert(out@ =~= before + candidates_of(g@));
            i += 1;
        }
        out
    }

    /// Resolves duplicates: of every list with more than one member, one
    /// file is kept and the others are reported as its duplicates and
    /// dropped from the list. Kept is a file in the preferred format over
    /// one that is not; among equals in that, the one modified last; among
    /// equals in both, the first in the list. `file_types` and
    /// `modify_dates` give the format and the modification time of each
    /// handle.
    pub fn remove_duplicates(
        &mut self,
        file_types: &HashMap<FileHandle, String>,
        modify_dates: &HashMap<FileHandle, ModifyDate>,
    ) -> (r: Vec<(FileHandle, Vec<FileHandle>)>)
        requires
            old(self).wf(),
            covers(file_types@, modify_dates@, old(self)@),
        ensures
            final(self).wf(),
            final(self)@ == deduplicated(file_types@, modify_dates@, old(self)@),
            report_views(r@) == duplicate_reports(file_types@, modify_dates@, old(self)@),
    {
        let ghost given = old(self)@;
        let ghost parts = report_parts(file_types@, modify_dates@, given);
        let mut reports: Vec<(FileHandle, Vec<FileHandle>)> = Vec::new();
        assert(report_views(reports@) =~= concat(parts, 0));
        let mut i: usize = 0;
        while i < self.groups.len()
            invariant
                i <= given.len(),
                given == old(self)@,
                self@.len() == given.len(),
                self.groups@.len() == given.len(),
                covers(file_types@, modify_dates@, given),
                parts == report_parts(file_types@, modify_dates@, given),
                forall|j: int|
                    0 <= j < given.len() ==> #[trigger] self@[j] == (if j < i {
                        dedup_group(file_types@, modify_dates@, given[j])
                    } else {
                        given[j]
                    }),
                report_views(reports@) == concat(parts, i as nat),
            decreases given.len() - i,
        {
            let ghost before = self@;
            let mut g = Group { session_id: String::new(), images: Vec::new(), videos: Vec::new() };
            self.groups.set_and_swap(i, &mut g);
            assert(g@ == before[i as int]);
            assert(g@ == given[i as int]);
            proof {
                let images = g.images@;
                let videos = g.videos@;
                let many_images = if images.len() > 1 {
                    images
                } else {
                    Seq::empty()
                };
                let many_videos = if videos.len() > 1 {
                    videos
                } else {
                    Seq::empty()
                };
                assert forall|j: int| 0 <= j < images.len() && images.len() > 1 implies
                    file_types@.contains_key(#[trigger] images[j]) && modify_dates@.contains_key(
                    images[j],
                ) by {
                    lemma_add_contains(many_images, many_videos, images[j]);
                    assert(images.contains(images[j]));
                    assert(candidates_of(given[i as int]).contains(images[j]));
                }
                assert forall|j: int| 0 <= j < videos.len() && videos.len() > 1 implies
                    file_types@.contains_key(#[trigger] videos[j]) && modify_dates@.contains_key(
                    videos[j],
                ) by {
                    lemma_add_contains(many_images, many_videos, videos[j]);
                    assert(videos.contains(videos[j]));
                    assert(candidates_of(given[i as int]).contains(videos[j]));
                }
            }
            let ghost reported = report_views(reports@);
            resolve(&mut g.images, file_types, modify_dates, &mut reports);
            resolve(&mut g.videos, file_types, modify_dates, &mut reports);
            assert(g@ == dedup_group(file_types@, modify_dates@, given[i as int]));
            assert(report_views(reports@) =~= reported + group_reports(
                file_types@,
                modify_dates@,
                given[i as int],
            ));
            self.groups.set(i, g);
            assert(self@[i as int] == dedup_group(file_types@, modify_dates@, given[i as int]));
            assert forall|j: int| 0 <= j < given.len() implies #[trigger] self@[j] == (if j < i
                + 1 {
                dedup_group(file_types@, modify_dates@, given[j])
            } else {
                given[j]
            }) by {
                if j != i {
                    assert(self@[j] == before[j]);
                }
            }
            i += 1;
        }
        assert(self@ =~= deduplicated(file_types@, modify_dates@, given));
        proof {
            lemma_deduplicated(file_types@, modify_dates@, given);
        }
        reports
    }

    /// Reports every video whose group has no image, in group order and
    /// then list order, and drops it from its group.
    pub fn remove_leftover_videos(&mut self) -> (r: Vec<FileHandle>)
        requires
            old(self).wf(),
        ensures
            final(self).wf(),
            final(self)@ == without_leftover(old(self)@),
            r@ == leftover_videos(old(self)@),
    {
        let ghost given = old(self)@;
        let ghost parts = leftover_parts(given);
        let mut out: Vec<FileHandle> = Vec::new();
        let mut i: usize = 0;
        while i < self.groups.len()
            invariant
                i <= given.len(),
                given == old(self)@,
                self@.len() == given.len(),
                self.groups@.len() == given.len(),
                parts == leftover_parts(given),
                forall|j: int|
                    0 <= j < given.len() ==> #[trigger] self@[j] == (if j < i {
                        without_leftover_of(given[j])
                    } else {
                        given[j]
                    }),
                out@ == concat(parts, i as nat),
            decreases given.len() - i,
        {
            let ghost before = self@;
            assert(before[i as int] == self.groups@[i as int]@);
            if self.groups[i].images.len() == 0 {
                let mut g = Group {
                    session_id: String::new(),
                    images: Vec::new(),
                    videos: Vec::new(),
                };
                self.groups.set_and_swap(i, &mut g);
                assert(g@ == given[i as int]);
                out.append(&mut g.videos);
                assert(g@.images =~= without_leftover_of(given[i as int]).images);
                self.groups.set(i, g);
                assert(self@[i as int] == without_leftover_of(given[i as int]));
            } else {
                assert(out@ =~= concat(parts, i as nat) + leftover_of(given[i as int]));
            }
            assert forall|j: int| 0 <= j < given.len() implies #[trigger] self@[j] == (if j < i
                + 1 {
                without_leftover_of(given[j])
            } else {
                given[j]
            }) by {
                if j != i {
                    assert(self@[j] == before[j]);
                }
            }
            i += 1;
        }
        assert(self@ =~= without_leftover(given));
        proof {
            lemma_without_leftover(given);
        }
        out
    }

    /// The image list and the video list of every group that is not empty,
    /// in group order. A group that still has more than one image or video
    /// is listed as it is, so that the caller can see and report it.
    pub fn iter(&self) -> (r: Vec<(Vec<FileHandle>, Vec<FileHandle>)>)
        ensures
            pair_views(r@) == listing(self@),
    {
        let ghost parts = listing_parts(self@);
        let mut out: Vec<(Vec<FileHandle>, Vec<FileHandle>)> = Vec::new();
        assert(pair_views(out@) =~= concat(parts, 0));
        let mut i: usize = 0;
        while i < self.groups.len()
            invariant
                i <= self.groups@.len(),
                self@.len() == self.groups@.len(),
                parts == listing_parts(self@),
                pair_views(out@) == concat(parts, i as nat),
            decreases self.groups@.len() - i,
        {
            let g = &self.groups[i];
            assert(self@[i as int] == g@);
            let ghost before = pair_views(out@);
            if g.images.len() > 0 || g.videos.len() > 0 {
                out.push((copy_handles(&g.images), copy_handles(&g.videos)));
            }
            assert(pair_views(out@) =~= before + listing_of(g@));
            i += 1;
        }
        out
    }
}

} // verus!
