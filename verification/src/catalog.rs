//! The catalog: every tracked file by handle, and which files are sidecars
//! of which.
//!
//! A handle is the index of a slot. Slots are only ever appended, and a
//! removed entry leaves its slot empty for good, so a stale handle never
//! resolves to another file.

use vstd::prelude::*;

use crate::error::Error;
use crate::metadata::{tag_warnings, FileHandle, Metadata, TagWarning};
use crate::seqs::lemma_push_contains;
use crate::text::str_eq;

verus! {

/// What a catalogued file is.
#[derive(Debug, PartialEq, Eq)]
pub enum Role {
    /// An image or a video.
    Media,
    /// A metadata-only companion of the media file at the given path.
    Sidecar(String),
}

/// One tracked file.
#[derive(Debug, PartialEq, Eq)]
pub struct Entry {
    pub handle: FileHandle,
    pub metadata: Metadata,
    pub role: Role,
}

/// The catalog's model: slot `h` holds the entry of handle `h`, or nothing
/// once that entry is removed.
pub type Slots = Seq<Option<Entry>>;

/// The extension that marks a sidecar file.
pub open spec fn sidecar_suffix() -> Seq<char> {
    ".xmp"@
}

/// A sidecar path is a path with a file name of its own followed by the
/// sidecar suffix.
pub open spec fn is_sidecar_path(path: Seq<char>) -> bool {
    &&& path.len() > 4
    &&& path[path.len() - 5] != '/'
    &&& path.subrange(path.len() - 4, path.len() as int) == sidecar_suffix()
}

/// The media path that a sidecar path belongs to: the path without the
/// suffix.
pub open spec fn sidecar_source(path: Seq<char>) -> Seq<char> {
    path.subrange(0, path.len() - 4)
}

/// The path of the sidecar of the media file at `media`.
pub open spec fn sidecar_path_of(media: Seq<char>) -> Seq<char> {
    media + sidecar_suffix()
}

/// The media path recorded in the role of a file at `path`, if the file is a
/// sidecar.
pub open spec fn role_source(path: Seq<char>) -> Option<Seq<char>> {
    if is_sidecar_path(path) {
        Some(sidecar_source(path))
    } else {
        None
    }
}

/// Whether handle `h` resolves to an entry.
pub open spec fn live(c: Slots, h: FileHandle) -> bool {
    (h as int) < c.len() && c[h as int] is Some
}

/// The entry of a live handle.
pub open spec fn entry_at(c: Slots, h: FileHandle) -> Entry
    recommends
        live(c, h),
{
    c[h as int]->0
}

/// The path of a live handle's file.
pub open spec fn path_at(c: Slots, h: FileHandle) -> Seq<char>
    recommends
        live(c, h),
{
    entry_at(c, h).metadata.source_file@
}

/// Whether `h` is a live media entry.
pub open spec fn is_media(c: Slots, h: FileHandle) -> bool {
    live(c, h) && entry_at(c, h).role is Media
}

/// Whether `h` is a live sidecar of the media path `media`.
pub open spec fn is_sidecar_of(c: Slots, h: FileHandle, media: Seq<char>) -> bool {
    live(c, h) && entry_at(c, h).role.source_path() == Some(media)
}

/// What reading the record of `h` gives.
pub open spec fn lookup(c: Slots, h: FileHandle) -> Result<Metadata, Error> {
    if live(c, h) {
        Ok(entry_at(c, h).metadata)
    } else {
        Err(Error::NotFound)
    }
}

/// Every slot holds the entry of its own handle, and handles fit the handle
/// type.
pub open spec fn well_formed(c: Slots) -> bool {
    &&& c.len() <= u32::MAX
    &&& forall|h: FileHandle| live(c, h) ==> (#[trigger] entry_at(c, h)).handle == h
}

/// `after` is `before` with one more entry: `metadata` under the fresh
/// handle `h`, in the role that its path gives it.
pub open spec fn inserted(before: Slots, after: Slots, h: FileHandle, metadata: Metadata) -> bool {
    &&& h == before.len()
    &&& after.len() == before.len() + 1
    &&& after.drop_last() == before
    &&& live(after, h)
    &&& entry_at(after, h).handle == h
    &&& entry_at(after, h).metadata == metadata
    &&& entry_at(after, h).role.source_path() == role_source(metadata.source_file@)
}

/// No handle that was stale in `before` resolves in `after`.
pub open spec fn stale_stays_stale(before: Slots, after: Slots) -> bool {
    &&& before.len() <= after.len()
    &&& forall|h: FileHandle|
        #![trigger live(after, h)]
        (h as int) < before.len() && !live(before, h) ==> !live(after, h)
}

/// `c` holds exactly `records`, in order, under the handles `0, 1, ...`.
pub open spec fn holds_records(c: Slots, records: Seq<Metadata>) -> bool {
    &&& c.len() == records.len()
    &&& forall|h: FileHandle|
        (h as int) < records.len() ==> {
            &&& #[trigger] live(c, h)
            &&& entry_at(c, h).handle == h
            &&& entry_at(c, h).metadata == records[h as int]
            &&& entry_at(c, h).role.source_path() == role_source(records[h as int].source_file@)
        }
}

/// The live sidecars of the media path `media` among the first `n`
/// handles, in handle order.
pub open spec fn sidecars_of(c: Slots, media: Seq<char>, n: nat) -> Seq<FileHandle>
    decreases n,
{
    if n == 0 {
        Seq::empty()
    } else {
        let rest = sidecars_of(c, media, (n - 1) as nat);
        if is_sidecar_of(c, (n - 1) as FileHandle, media) {
            rest.push((n - 1) as FileHandle)
        } else {
            rest
        }
    }
}

/// The stored paths of the given handles, one for one.
pub open spec fn paths_of(c: Slots, handles: Seq<FileHandle>) -> Seq<String> {
    handles.map_values(|k: FileHandle| entry_at(c, k).metadata.source_file)
}

/// The path that metadata of `h` is read from: its first sidecar's, if it
/// has one, else its own.
pub open spec fn metadata_source(c: Slots, h: FileHandle) -> String
    recommends
        live(c, h),
{
    let sidecars = sidecars_of(c, path_at(c, h), c.len());
    if sidecars.len() > 0 {
        entry_at(c, sidecars[0]).metadata.source_file
    } else {
        entry_at(c, h).metadata.source_file
    }
}

/// The files that belong to `h`: itself first, then its sidecars in handle
/// order, each with its path.
pub open spec fn sinks_of(c: Slots, h: FileHandle) -> Seq<(FileHandle, String)>
    recommends
        live(c, h),
{
    seq![(h, entry_at(c, h).metadata.source_file)] + sidecars_of(
        c,
        path_at(c, h),
        c.len(),
    ).map_values(|k: FileHandle| (k, entry_at(c, k).metadata.source_file))
}

/// Whether removing `h` also removes `k`: `k` is `h` itself, or `h` is a
/// media file and `k` one of its sidecars.
pub open spec fn goes_with(c: Slots, h: FileHandle, k: FileHandle) -> bool {
    k == h || (is_media(c, h) && is_sidecar_of(c, k, path_at(c, h)))
}

/// The catalog after `h` is removed.
pub open spec fn removed(c: Slots, h: FileHandle) -> Slots {
    Seq::new(
        c.len(),
        |i: int|
            if goes_with(c, h, i as FileHandle) {
                None
            } else {
                c[i]
            },
    )
}

/// The paths of the files that leave the catalog when `h` is removed: its
/// own, then those of its sidecars if it is a media file.
pub open spec fn removed_paths(c: Slots, h: FileHandle) -> Seq<String>
    recommends
        live(c, h),
{
    seq![entry_at(c, h).metadata.source_file] + (if is_media(c, h) {
        paths_of(c, sidecars_of(c, path_at(c, h), c.len()))
    } else {
        Seq::empty()
    })
}

/// Whether some live media file has the path `path`.
pub open spec fn has_media(c: Slots, path: Seq<char>) -> bool {
    exists|k: FileHandle| is_media(c, k) && path_at(c, k) == path
}

/// Whether `h` is a live sidecar whose media file is not in the catalog.
pub open spec fn is_orphan(c: Slots, h: FileHandle) -> bool {
    &&& live(c, h)
    &&& entry_at(c, h).role is Sidecar
    &&& !has_media(c, entry_at(c, h).role.source_path()->0)
}

/// The catalog after every orphan sidecar is removed.
pub open spec fn without_orphans(c: Slots) -> Slots {
    Seq::new(
        c.len(),
        |i: int|
            if is_orphan(c, i as FileHandle) {
                None
            } else {
                c[i]
            },
    )
}

/// The orphan sidecars among the first `n` handles, in handle order.
pub open spec fn orphans(c: Slots, n: nat) -> Seq<Entry>
    decreases n,
{
    if n == 0 {
        Seq::empty()
    } else {
        let rest = orphans(c, (n - 1) as nat);
        if is_orphan(c, (n - 1) as FileHandle) {
            rest.push(entry_at(c, (n - 1) as FileHandle))
        } else {
            rest
        }
    }
}

/// Whether `h` is a media file without any sidecar.
pub open spec fn lacks_sidecar(c: Slots, h: FileHandle) -> bool {
    is_media(c, h) && sidecars_of(c, path_at(c, h), c.len()).len() == 0
}

/// The paths of the media files without a sidecar among the first `n`
/// handles, in handle order.
pub open spec fn missing_sidecars(c: Slots, n: nat) -> Seq<String>
    decreases n,
{
    if n == 0 {
        Seq::empty()
    } else {
        let rest = missing_sidecars(c, (n - 1) as nat);
        if lacks_sidecar(c, (n - 1) as FileHandle) {
            rest.push(entry_at(c, (n - 1) as FileHandle).metadata.source_file)
        } else {
            rest
        }
    }
}

/// The media handles among the first `n` handles, in handle order.
pub open spec fn media_handles(c: Slots, n: nat) -> Seq<FileHandle>
    decreases n,
{
    if n == 0 {
        Seq::empty()
    } else {
        let rest = media_handles(c, (n - 1) as nat);
        if is_media(c, (n - 1) as FileHandle) {
            rest.push((n - 1) as FileHandle)
        } else {
            rest
        }
    }
}

/// `listing` names every media entry of `c` once, in handle order, each
/// with its entry.
pub open spec fn lists_media(c: Slots, listing: Seq<(FileHandle, &Entry)>) -> bool {
    &&& listing.len() == media_handles(c, c.len()).len()
    &&& forall|j: int|
        0 <= j < listing.len() ==> {
            &&& (#[trigger] listing[j]).0 == media_handles(c, c.len())[j]
            &&& *listing[j].1 == entry_at(c, listing[j].0)
        }
}

/// `report` holds, for every media entry of `c` in handle order, the
/// findings of its tag validation.
pub open spec fn reports_tags(c: Slots, report: Seq<(FileHandle, Vec<TagWarning>)>) -> bool {
    &&& report.len() == media_handles(c, c.len()).len()
    &&& forall|j: int|
        0 <= j < report.len() ==> {
            &&& (#[trigger] report[j]).0 == media_handles(c, c.len())[j]
            &&& report[j].1@ == tag_warnings(entry_at(c, report[j].0).metadata)
        }
}

/// Every handle that [`sidecars_of`] lists is below `n` and a live sidecar
/// of `media`, and every such handle is listed.
pub proof fn lemma_sidecars_of_members(c: Slots, media: Seq<char>, n: nat)
    requires
        n <= u32::MAX,
    ensures
        forall|k: FileHandle|
            #![trigger sidecars_of(c, media, n).contains(k)]
            #![trigger is_sidecar_of(c, k, media)]
            sidecars_of(c, media, n).contains(k) <==> (k as int) < n && is_sidecar_of(c, k, media),
    decreases n,
{
    if n > 0 {
        let last = (n - 1) as FileHandle;
        let rest = sidecars_of(c, media, (n - 1) as nat);
        lemma_sidecars_of_members(c, media, (n - 1) as nat);
        assert forall|k: FileHandle|
            #![trigger sidecars_of(c, media, n).contains(k)]
            #![trigger is_sidecar_of(c, k, media)]
            sidecars_of(c, media, n).contains(k) <==> (k as int) < n && is_sidecar_of(
                c,
                k,
                media,
            ) by {
            lemma_push_contains(rest, last, k);
            assert(rest.contains(k) <==> (k as int) < n - 1 && is_sidecar_of(c, k, media));
        }
    } else {
        assert(sidecars_of(c, media, n).len() == 0);
    }
}

/// Every handle that [`media_handles`] lists is below `n` and a live media
/// entry, every such handle is listed, and the list ascends.
pub proof fn lemma_media_handles_members(c: Slots, n: nat)
    requires
        n <= u32::MAX,
    ensures
        forall|k: FileHandle|
            #![trigger media_handles(c, n).contains(k)]
            #![trigger is_media(c, k)]
            media_handles(c, n).contains(k) <==> (k as int) < n && is_media(c, k),
        forall|i: int, j: int|
            0 <= i < j < media_handles(c, n).len() ==> media_handles(c, n)[i] < media_handles(
                c,
                n,
            )[j],
    decreases n,
{
    if n > 0 {
        let last = (n - 1) as FileHandle;
        let rest = media_handles(c, (n - 1) as nat);
        lemma_media_handles_members(c, (n - 1) as nat);
        assert forall|k: FileHandle|
            #![trigger media_handles(c, n).contains(k)]
            #![trigger is_media(c, k)]
            media_handles(c, n).contains(k) <==> (k as int) < n && is_media(c, k) by {
            lemma_push_contains(rest, last, k);
            assert(rest.contains(k) <==> (k as int) < n - 1 && is_media(c, k));
        }
        assert forall|i: int, j: int| 0 <= i < j < media_handles(c, n).len() implies media_handles(
            c,
            n,
        )[i] < media_handles(c, n)[j] by {
            if j == rest.len() {
                assert(rest.contains(rest[i]));
                assert((rest[i] as int) < n - 1);
            } else {
                assert(rest[i] < rest[j]);
            }
        }
    } else {
        assert(media_handles(c, n).len() == 0);
    }
}

/// The catalog after the first `n` of `handles` are removed, one after the
/// other.
pub open spec fn remove_all(c: Slots, handles: Seq<FileHandle>, n: nat) -> Slots
    decreases n,
{
    if n == 0 {
        c
    } else {
        removed(remove_all(c, handles, (n - 1) as nat), handles[n - 1])
    }
}

/// The paths of the files that leave the catalog while the first `n` of
/// `handles` are removed, in the order in which they leave.
pub open spec fn removed_in_turn(c: Slots, handles: Seq<FileHandle>, n: nat) -> Seq<String>
    decreases n,
{
    if n == 0 {
        Seq::empty()
    } else {
        removed_in_turn(c, handles, (n - 1) as nat) + removed_paths(
            remove_all(c, handles, (n - 1) as nat),
            handles[n - 1],
        )
    }
}

/// A record that was just inserted is read back as it was given, under a
/// handle that did not resolve before, and every other record reads as
/// before.
pub proof fn lemma_inserted_is_read_back(
    before: Slots,
    after: Slots,
    h: FileHandle,
    metadata: Metadata,
)
    requires
        inserted(before, after, h, metadata),
    ensures
        !live(before, h),
        lookup(after, h) == Ok::<Metadata, Error>(metadata),
        forall|k: FileHandle| k != h ==> #[trigger] lookup(after, k) == lookup(before, k),
{
    assert forall|k: FileHandle| k != h implies #[trigger] lookup(after, k) == lookup(
        before,
        k,
    ) by {
        if (k as int) < before.len() {
            assert(after.drop_last()[k as int] == after[k as int]);
        }
    }
}

/// The sidecar path of a media file is a sidecar path, and leads back to
/// the media path.
pub proof fn lemma_sidecar_path_leads_back(media: Seq<char>)
    requires
        media.len() > 0,
        media.last() != '/',
    ensures
        is_sidecar_path(sidecar_path_of(media)),
        sidecar_source(sidecar_path_of(media)) == media,
        role_source(sidecar_path_of(media)) == Some(media),
{
    reveal_strlit(".xmp");
    let path = sidecar_path_of(media);
    assert(path.len() == media.len() + 4);
    assert(path[path.len() - 5] == media.last());
    assert(path.subrange(path.len() - 4, path.len() as int) =~= sidecar_suffix());
    assert(path.subrange(0, path.len() - 4) =~= media);
}

/// Sidecars are found among the handles below `n` alone.
proof fn lemma_sidecars_of_prefix(before: Slots, after: Slots, media: Seq<char>, n: nat)
    requires
        n <= before.len(),
        before.len() <= after.len(),
        forall|i: int| 0 <= i < before.len() ==> before[i] == after[i],
        n <= u32::MAX,
    ensures
        sidecars_of(after, media, n) == sidecars_of(before, media, n),
    decreases n,
{
    if n > 0 {
        lemma_sidecars_of_prefix(before, after, media, (n - 1) as nat);
    }
}

/// What a new entry changes for the sidecar relation. A sidecar joins the
/// sidecars of its media path, as the last of them, and is an orphan
/// exactly if no media file has that path; a media file changes no list
/// of sidecars.
pub proof fn lemma_inserted_sidecar(
    before: Slots,
    after: Slots,
    h: FileHandle,
    metadata: Metadata,
    media: Seq<char>,
)
    requires
        well_formed(before),
        inserted(before, after, h, metadata),
    ensures
        sidecars_of(after, media, after.len()) == (if role_source(metadata.source_file@) == Some(
            media,
        ) {
            sidecars_of(before, media, before.len()).push(h)
        } else {
            sidecars_of(before, media, before.len())
        }),
        is_orphan(after, h) <==> is_sidecar_path(metadata.source_file@) && !has_media(
            before,
            sidecar_source(metadata.source_file@),
        ),
{
    assert forall|i: int| 0 <= i < before.len() implies before[i] == after[i] by {
        assert(after.drop_last()[i] == after[i]);
    }
    lemma_sidecars_of_prefix(before, after, media, before.len());
    if is_sidecar_path(metadata.source_file@) {
        let source = sidecar_source(metadata.source_file@);
        if has_media(before, source) {
            let k = choose|k: FileHandle| is_media(before, k) && path_at(before, k) == source;
            assert(is_media(after, k) && path_at(after, k) == source);
        }
        if has_media(after, source) {
            let k = choose|k: FileHandle| is_media(after, k) && path_at(after, k) == source;
            assert(k != h);
            assert(is_media(before, k) && path_at(before, k) == source);
        }
    }
}

/// A sidecar created for a media file that had none is then its one
/// sidecar: with the pipeline creating sidecars only where one is missing,
/// no media path gets a second.
pub proof fn lemma_created_sidecar_is_alone(
    before: Slots,
    after: Slots,
    h: FileHandle,
    metadata: Metadata,
    media: Seq<char>,
)
    requires
        well_formed(before),
        media.len() > 0,
        media.last() != '/',
        sidecars_of(before, media, before.len()).len() == 0,
        metadata.source_file@ == sidecar_path_of(media),
        inserted(before, after, h, metadata),
    ensures
        sidecars_of(after, media, after.len()) == seq![h],
{
    lemma_sidecar_path_leads_back(media);
    lemma_inserted_sidecar(before, after, h, metadata, media);
    assert(sidecars_of(before, media, before.len()).push(h) =~= seq![h]);
}

/// A removed handle is stale: reading it fails with `NotFound`. With it go
/// only the entries that removal names; every other handle resolves to the
/// entry it had.
pub proof fn lemma_removed_is_stale(c: Slots, h: FileHandle)
    requires
        live(c, h),
    ensures
        !live(removed(c, h), h),
        lookup(removed(c, h), h) == Err::<Metadata, Error>(Error::NotFound),
        stale_stays_stale(c, removed(c, h)),
        forall|k: FileHandle|
            #![trigger live(removed(c, h), k)]
            live(removed(c, h), k) <==> live(c, k) && !goes_with(c, h, k),
        forall|k: FileHandle|
            live(removed(c, h), k) ==> #[trigger] entry_at(removed(c, h), k) == entry_at(c, k),
{
}

/// Staleness is for good: what was stale stays stale through any number
/// of steps that each keep it so.
pub proof fn lemma_stale_transitive(a: Slots, b: Slots, c: Slots)
    requires
        stale_stays_stale(a, b),
        stale_stays_stale(b, c),
    ensures
        stale_stays_stale(a, c),
{
    assert forall|h: FileHandle| #![trigger live(c, h)]
        (h as int) < a.len() && !live(a, h) implies !live(c, h) by {
        assert(!live(b, h));
    }
}

/// Removing a media file takes its sidecars with it: the paths returned
/// are its own and then theirs, no sidecar of its path is left, and nothing
/// that was removed or left is an orphan that was not one before.
pub proof fn lemma_remove_takes_sidecars(c: Slots, h: FileHandle)
    requires
        well_formed(c),
        is_media(c, h),
    ensures
        forall|k: FileHandle| !is_sidecar_of(removed(c, h), k, path_at(c, h)),
        removed_paths(c, h).len() == 1 + sidecars_of(c, path_at(c, h), c.len()).len(),
        removed_paths(c, h)[0] == entry_at(c, h).metadata.source_file,
        sidecars_of(c, path_at(c, h), c.len()).len() == 1 ==> removed_paths(c, h) == seq![
            entry_at(c, h).metadata.source_file,
            entry_at(c, sidecars_of(c, path_at(c, h), c.len())[0]).metadata.source_file,
        ],
        forall|k: FileHandle| #[trigger] is_orphan(removed(c, h), k) ==> is_orphan(c, k),
        forall|k: FileHandle| goes_with(c, h, k) ==> !#[trigger] is_orphan(removed(c, h), k),
{
    let after = removed(c, h);
    let sidecars = sidecars_of(c, path_at(c, h), c.len());
    if sidecars.len() == 1 {
        assert(removed_paths(c, h) =~= seq![
            entry_at(c, h).metadata.source_file,
            entry_at(c, sidecars[0]).metadata.source_file,
        ]);
    }
    assert forall|k: FileHandle| #[trigger] is_orphan(after, k) implies is_orphan(c, k) by {
        let q = entry_at(c, k).role.source_path()->0;
        if has_media(c, q) {
            let j = choose|j: FileHandle| is_media(c, j) && path_at(c, j) == q;
            if j != h {
                assert(is_media(after, j) && path_at(after, j) == q);
            }
        }
    }
}

/// Removing a file leaves every other media file live, with the entry it
/// had.
pub proof fn lemma_remove_keeps_media(c: Slots, h: FileHandle, k: FileHandle)
    requires
        is_media(c, k),
        k != h,
    ensures
        is_media(removed(c, h), k),
        entry_at(removed(c, h), k) == entry_at(c, k),
{
}

impl Role {
    /// The media path that a sidecar belongs to; nothing for a media file.
    pub open spec fn source_path(self) -> Option<Seq<char>> {
        match self {
            Role::Media => None,
            Role::Sidecar(path) => Some(path@),
        }
    }
}

/// The role of a file at `path`: a sidecar of the path without the suffix
/// if `path` is a sidecar path, a media file otherwise.
pub fn classify(path: &str) -> (r: Role)
    ensures
        r.source_path() == role_source(path@),
{
    proof {
        reveal_strlit(".xmp");
    }
    let n = path.unicode_len();
    if n > 4 && path.get_char(n - 5) != '/' && path.get_char(n - 4) == '.' && path.get_char(n - 3)
        == 'x' && path.get_char(n - 2) == 'm' && path.get_char(n - 1) == 'p' {
        assert(path@.subrange(path@.len() - 4, path@.len() as int) =~= sidecar_suffix());
        Role::Sidecar(path.substring_char(0, n - 4).to_owned())
    } else {
        assert(is_sidecar_path(path@) ==> {
            let tail = path@.subrange(path@.len() - 4, path@.len() as int);
            tail[0] == '.' && tail[1] == 'x' && tail[2] == 'm' && tail[3] == 'p'
        });
        Role::Media
    }
}

/// The set of tracked files.
pub struct Catalog {
    slots: Vec<Option<Entry>>,
}

impl View for Catalog {
    type V = Slots;

    closed spec fn view(&self) -> Slots {
        self.slots@
    }
}

impl Catalog {
    /// The catalog's invariant.
    pub open spec fn wf(&self) -> bool {
        well_formed(self@)
    }

    /// A catalog of `records`, which get the handles `0, 1, ...` in order.
    pub fn new(records: Vec<Metadata>) -> (r: Catalog)
        requires
            records@.len() <= u32::MAX,
        ensures
            r.wf(),
            holds_records(r@, records@),
    {
        let mut records = records;
        let ghost given = records@;
        let mut catalog = Catalog { slots: Vec::new() };
        let mut i: usize = 0;
        while i < records.len()
            invariant
                i <= records@.len(),
                records@.len() == given.len(),
                given.len() <= u32::MAX,
                forall|k: int| i <= k < given.len() ==> records@[k] == given[k],
                catalog.wf(),
                holds_records(catalog@, given.take(i as int)),
            decreases records@.len() - i,
        {
            let mut record = Metadata::default();
            records.set_and_swap(i, &mut record);
            let ghost before = catalog@;
            let h = catalog.insert(record);
            proof {
                assert(before == catalog@.drop_last());
                assert forall|k: FileHandle| (k as int) < i + 1 implies {
                    &&& #[trigger] live(catalog@, k)
                    &&& entry_at(catalog@, k).handle == k
                    &&& entry_at(catalog@, k).metadata == given.take(i + 1)[k as int]
                    &&& entry_at(catalog@, k).role.source_path() == role_source(
                        given.take(i + 1)[k as int].source_file@,
                    )
                } by {
                    if k < i {
                        assert(live(before, k));
                        assert(catalog@[k as int] == before[k as int]);
                        assert(given.take(i as int)[k as int] == given.take(i + 1)[k as int]);
                    }
                }
            }
            i += 1;
        }
        assert(given.take(i as int) =~= given);
        catalog
    }

    /// The number of handles handed out so far, removed ones included.
    pub fn handle_count(&self) -> (n: usize)
        ensures
            n == self@.len(),
    {
        self.slots.len()
    }

    /// Tracks one more file and returns its handle. The file is a sidecar
    /// if its path says so, and a media file otherwise.
    pub fn insert(&mut self, metadata: Metadata) -> (h: FileHandle)
        requires
            old(self).wf(),
            old(self)@.len() < u32::MAX,
        ensures
            final(self).wf(),
            inserted(old(self)@, final(self)@, h, metadata),
            stale_stays_stale(old(self)@, final(self)@),
    {
        let h = self.slots.len() as u32;
        let role = classify(metadata.source_file.as_str());
        self.slots.push(Some(Entry { handle: h, metadata, role }));
        proof {
            assert(self@.drop_last() =~= old(self)@);
            assert forall|k: FileHandle| live(self@, k) implies (#[trigger] entry_at(
                self@,
                k,
            )).handle == k by {
                if k != h {
                    assert(self@[k as int] == old(self)@[k as int]);
                    assert(live(old(self)@, k));
                    assert(entry_at(old(self)@, k).handle == k);
                } else {
                    assert(self@[h as int] == self.slots@.last());
                }
            }
        }
        h
    }

    /// The entry of `h`, if `h` is live.
    fn slot(&self, h: FileHandle) -> (r: Option<&Entry>)
        ensures
            match r {
                Some(e) => live(self@, h) && *e == entry_at(self@, h),
                None => !live(self@, h),
            },
    {
        let i = h as usize;
        if i < self.slots.len() {
            self.slots[i].as_ref()
        } else {
            None
        }
    }

    /// The record of `h`. Fails with `NotFound` exactly when `h` was removed
    /// or never handed out.
    pub fn get_metadata(&self, h: FileHandle) -> (r: Result<&Metadata, Error>)
        ensures
            match r {
                Ok(m) => lookup(self@, h) == Ok::<Metadata, Error>(*m),
                Err(e) => lookup(self@, h) == Err::<Metadata, Error>(e),
            },
    {
        match self.slot(h) {
            Some(e) => Ok(&e.metadata),
            None => Err(Error::NotFound),
        }
    }
    /// Whether slot `i` holds a sidecar of the media path `media`.
    fn is_sidecar_slot(&self, i: usize, media: &str) -> (r: bool)
        requires
            self.wf(),
            i < self@.len(),
        ensures
            r == is_sidecar_of(self@, i as FileHandle, media@),
    {
        match &self.slots[i] {
            Some(e) => match &e.role {
                Role::Sidecar(source) => str_eq(source.as_str(), media),
                Role::Media => false,
            },
            None => false,
        }
    }

    /// The handles of the sidecars of the media path `media`, ascending.
    fn find_sidecars(&self, media: &str) -> (r: Vec<FileHandle>)
        requires
            self.wf(),
        ensures
            r@ == sidecars_of(self@, media@, self@.len()),
    {
        let mut out: Vec<FileHandle> = Vec::new();
        let mut i: usize = 0;
        while i < self.slots.len()
            invariant
                self.wf(),
                i <= self@.len(),
                out@ == sidecars_of(self@, media@, i as nat),
            decreases self@.len() - i,
        {
            if self.is_sidecar_slot(i, media) {
                out.push(i as u32);
            }
            i += 1;
        }
        out
    }

    /// Whether some live media file has the path `path`.
    fn has_media_path(&self, path: &str) -> (r: bool)
        requires
            self.wf(),
        ensures
            r == has_media(self@, path@),
    {
        let mut i: usize = 0;
        while i < self.slots.len()
            invariant
                self.wf(),
                i <= self@.len(),
                forall|k: FileHandle|
                    (k as int) < i ==> !(is_media(self@, k) && path_at(self@, k) == path@),
            decreases self@.len() - i,
        {
            let hit = match &self.slots[i] {
                Some(e) => match &e.role {
                    Role::Media => str_eq(e.metadata.source_file.as_str(), path),
                    Role::Sidecar(_) => false,
                },
                None => false,
            };
            if hit {
                assert(is_media(self@, i as FileHandle) && path_at(self@, i as FileHandle)
                    == path@);
                return true;
            }
            i += 1;
        }
        false
    }

    /// The path from which the tags of `h` are read: that of its sidecar if
    /// it has one, since a sidecar overrides the file's own tags, and its own
    /// path otherwise. Fails with `NotFound` exactly when `h` is stale.
    pub fn get_metadata_source_path(&self, h: FileHandle) -> (r: Result<String, Error>)
        requires
            self.wf(),
        ensures
            match r {
                Ok(path) => live(self@, h) && path == metadata_source(self@, h),
                Err(e) => e == Error::NotFound && !live(self@, h),
            },
    {
        match self.slot(h) {
            Some(e) => {
                let sidecars = self.find_sidecars(e.metadata.source_file.as_str());
                if sidecars.len() > 0 {
                    proof {
                        lemma_sidecars_of_members(self@, path_at(self@, h), self@.len());
                        assert(sidecars@.contains(sidecars@[0]));
                    }
                    match self.slot(sidecars[0]) {
                        Some(sidecar) => Ok(sidecar.metadata.source_file.clone()),
                        None => Err(Error::NotFound),
                    }
                } else {
                    Ok(e.metadata.source_file.clone())
                }
            },
            None => Err(Error::NotFound),
        }
    }

    /// Every file that must receive the tags of `h` or move with it: `h`
    /// itself first, then its sidecars. Fails with `NotFound` exactly when
    /// `h` is stale.
    pub fn get_media_sinks(&self, h: FileHandle) -> (r: Result<Vec<(FileHandle, String)>, Error>)
        requires
            self.wf(),
        ensures
            match r {
                Ok(sinks) => live(self@, h) && sinks@ == sinks_of(self@, h),
                Err(e) => e == Error::NotFound && !live(self@, h),
            },
    {
        let own = match self.slot(h) {
            Some(e) => &e.metadata.source_file,
            None => { return Err(Error::NotFound); },
        };
        let sidecars = self.find_sidecars(own.as_str());
        let mut sinks: Vec<(FileHandle, String)> = Vec::new();
        sinks.push((h, own.clone()));
        let ghost head = sinks@;
        let ghost pair = |k: FileHandle| (k, entry_at(self@, k).metadata.source_file);
        let mut j: usize = 0;
        proof {
            lemma_sidecars_of_members(self@, path_at(self@, h), self@.len());
            assert(sinks@ =~= head + sidecars@.take(0).map_values(pair));
        }
        while j < sidecars.len()
            invariant
                self.wf(),
                j <= sidecars@.len(),
                forall|k: FileHandle| sidecars@.contains(k) ==> live(self@, k),
                pair == |k: FileHandle| (k, entry_at(self@, k).metadata.source_file),
                sinks@ == head + sidecars@.take(j as int).map_values(pair),
            decreases sidecars@.len() - j,
        {
            let k = sidecars[j];
            assert(sidecars@.contains(k));
            match self.slot(k) {
                Some(e) => {
                    sinks.push((k, e.metadata.source_file.clone()));
                },
                None => {},
            }
            assert(sinks@ =~= head + sidecars@.take(j + 1).map_values(pair));
            j += 1;
        }
        assert(sidecars@.take(j as int) =~= sidecars@);
        Ok(sinks)
    }

    /// Replaces the record of `h`; its role stays as it is. Fails with
    /// `NotFound`, changing nothing, exactly when `h` is stale.
    pub fn update(&mut self, h: FileHandle, metadata: Metadata) -> (r: Result<(), Error>)
        requires
            old(self).wf(),
        ensures
            final(self).wf(),
            stale_stays_stale(old(self)@, final(self)@),
            match r {
                Ok(_) => live(old(self)@, h) && final(self)@ == old(self)@.update(
                    h as int,
                    Some(Entry { handle: h, metadata, role: entry_at(old(self)@, h).role }),
                ),
                Err(e) => e == Error::NotFound && !live(old(self)@, h) && final(self)@ == old(self)@,
            },
    {
        let i = h as usize;
        if i >= self.slots.len() {
            return Err(Error::NotFound);
        }
        let mut taken: Option<Entry> = None;
        self.slots.set_and_swap(i, &mut taken);
        match taken {
            Some(e) => {
                assert(e == entry_at(old(self)@, h));
                self.slots.set(i, Some(Entry { handle: e.handle, metadata, role: e.role }));
                proof {
                    assert(self@ =~= old(self)@.update(
                        h as int,
                        Some(Entry { handle: h, metadata, role: entry_at(old(self)@, h).role }),
                    ));
                    assert forall|k: FileHandle| live(self@, k) implies (#[trigger] entry_at(
                        self@,
                        k,
                    )).handle == k by {
                        if k != h {
                            assert(live(old(self)@, k));
                            assert(entry_at(old(self)@, k).handle == k);
                        }
                    }
                }
                Ok(())
            },
            None => {
                assert(self@ =~= old(self)@);
                Err(Error::NotFound)
            },
        }
    }

    /// Removes `h` and, if it is a media file, its sidecars with it, so that
    /// no sidecar is left pointing at a file that is gone. Returns the paths
    /// of the removed files, `h`'s own first. Fails with `NotFound`, changing
    /// nothing, exactly when `h` is stale.
    pub fn remove(&mut self, h: FileHandle) -> (r: Result<Vec<String>, Error>)
        requires
            old(self).wf(),
        ensures
            final(self).wf(),
            stale_stays_stale(old(self)@, final(self)@),
            match r {
                Ok(paths) => live(old(self)@, h) && final(self)@ == removed(old(self)@, h)
                    && paths@ == removed_paths(old(self)@, h),
                Err(e) => e == Error::NotFound && !live(old(self)@, h) && final(self)@ == old(self)@,
            },
    {
        let (own, media) = match self.slot(h) {
            Some(e) => (
                e.metadata.source_file.clone(),
                match &e.role {
                    Role::Media => true,
                    Role::Sidecar(_) => false,
                },
            ),
            None => { return Err(Error::NotFound); },
        };
        let ghost c = old(self)@;
        let mut paths: Vec<String> = Vec::new();
        paths.push(own.clone());
        let ghost head = paths@;
        if media {
            let mut i: usize = 0;
            assert(paths@ =~= head + paths_of(c, sidecars_of(c, own@, 0)));
            while i < self.slots.len()
                invariant
                    c == old(self)@,
                    well_formed(c),
                    is_media(c, h),
                    own@ == path_at(c, h),
                    self@.len() == c.len(),
                    i <= c.len(),
                    forall|k: int|
                        0 <= k < c.len() ==> #[trigger] self@[k] == (if k < i && is_sidecar_of(
                            c,
                            k as FileHandle,
                            own@,
                        ) {
                            None
                        } else {
                            c[k]
                        }),
                    paths@ == head + paths_of(c, sidecars_of(c, own@, i as nat)),
                decreases c.len() - i,
            {
                assert(self@[i as int] == c[i as int]);
                assert(is_sidecar_of(self@, i as FileHandle, own@) == is_sidecar_of(
                    c,
                    i as FileHandle,
                    own@,
                ));
                assert(self.wf()) by {
                    assert forall|k: FileHandle| live(self@, k) implies (#[trigger] entry_at(
                        self@,
                        k,
                    )).handle == k by {
                        assert(self@[k as int] == c[k as int]);
                        assert(entry_at(c, k).handle == k);
                    }
                }
                if self.is_sidecar_slot(i, own.as_str()) {
                    let mut taken: Option<Entry> = None;
                    self.slots.set_and_swap(i, &mut taken);
                    match taken {
                        Some(e) => {
                            paths.push(e.metadata.source_file);
                        },
                        None => {},
                    }
                    assert(paths@ =~= head + paths_of(c, sidecars_of(c, own@, (i + 1) as nat)));
                }
                i += 1;
            }
        }
        self.slots.set(h as usize, None);
        proof {
            assert(self@ =~= removed(c, h));
            assert(paths@ =~= removed_paths(c, h));
            assert forall|k: FileHandle| live(self@, k) implies (#[trigger] entry_at(
                self@,
                k,
            )).handle == k by {
                assert(self@[k as int] == c[k as int]);
                assert(entry_at(c, k).handle == k);
            }
        }
        Ok(paths)
    }

    /// Removes every sidecar whose media file is not in the catalog, and
    /// returns the removed entries in handle order.
    pub fn remove_leftover_sidecars(&mut self) -> (r: Vec<Entry>)
        requires
            old(self).wf(),
        ensures
            final(self).wf(),
            stale_stays_stale(old(self)@, final(self)@),
            final(self)@ == without_orphans(old(self)@),
            r@ == orphans(old(self)@, old(self)@.len()),
    {
        let ghost c = old(self)@;
        let mut out: Vec<Entry> = Vec::new();
        let mut i: usize = 0;
        while i < self.slots.len()
            invariant
                c == old(self)@,
                well_formed(c),
                self@.len() == c.len(),
                i <= c.len(),
                forall|k: int|
                    0 <= k < c.len() ==> #[trigger] self@[k] == (if k < i && is_orphan(
                        c,
                        k as FileHandle,
                    ) {
                        None
                    } else {
                        c[k]
                    }),
                out@ == orphans(c, i as nat),
            decreases c.len() - i,
        {
            assert(self@[i as int] == c[i as int]);
            assert(self.wf()) by {
                assert forall|k: FileHandle| live(self@, k) implies (#[trigger] entry_at(
                    self@,
                    k,
                )).handle == k by {
                    assert(self@[k as int] == c[k as int]);
                    assert(entry_at(c, k).handle == k);
                }
            }
            let orphan = match &self.slots[i] {
                Some(e) => match &e.role {
                    Role::Sidecar(source) => {
                        let found = self.has_media_path(source.as_str());
                        proof {
                            let path = source@;
                            if has_media(self@, path) {
                                let k = choose|k: FileHandle|
                                    is_media(self@, k) && path_at(self@, k) == path;
                                assert(self@[k as int] == c[k as int]);
                                assert(is_media(c, k) && path_at(c, k) == path);
                            }
                            if has_media(c, path) {
                                let k = choose|k: FileHandle|
                                    is_media(c, k) && path_at(c, k) == path;
                                assert(self@[k as int] == c[k as int]);
                                assert(is_media(self@, k) && path_at(self@, k) == path);
                            }
                        }
                        !found
                    },
                    Role::Media => false,
                },
                None => false,
            };
            assert(orphan == is_orphan(c, i as FileHandle));
            if orphan {
                let mut taken: Option<Entry> = None;
                self.slots.set_and_swap(i, &mut taken);
                match taken {
                    Some(e) => {
                        out.push(e);
                    },
                    None => {},
                }
            }
            i += 1;
        }
        proof {
            assert(self@ =~= without_orphans(c));
            assert forall|k: FileHandle| live(self@, k) implies (#[trigger] entry_at(
                self@,
                k,
            )).handle == k by {
                assert(self@[k as int] == c[k as int]);
                assert(entry_at(c, k).handle == k);
            }
        }
        out
    }

    /// The paths of the media files that have no sidecar, in handle order.
    pub fn get_missing_sidecars(&self) -> (r: Vec<String>)
        requires
            self.wf(),
        ensures
            r@ == missing_sidecars(self@, self@.len()),
    {
        let mut out: Vec<String> = Vec::new();
        let mut i: usize = 0;
        while i < self.slots.len()
            invariant
                self.wf(),
                i <= self@.len(),
                out@ == missing_sidecars(self@, i as nat),
            decreases self@.len() - i,
        {
            match &self.slots[i] {
                Some(e) => match &e.role {
                    Role::Media => {
                        let sidecars = self.find_sidecars(e.metadata.source_file.as_str());
                        if sidecars.len() == 0 {
                            out.push(e.metadata.source_file.clone());
                        }
                    },
                    Role::Sidecar(_) => {},
                },
                None => {},
            }
            i += 1;
        }
        out
    }

    /// Tracks a sidecar that was just created, from the record read from it.
    /// The record's path ties it to its media file: the sidecar path without
    /// the suffix is the media path.
    pub fn insert_sidecar(&mut self, metadata: Metadata) -> (h: FileHandle)
        requires
            old(self).wf(),
            old(self)@.len() < u32::MAX,
        ensures
            final(self).wf(),
            inserted(old(self)@, final(self)@, h, metadata),
            stale_stays_stale(old(self)@, final(self)@),
    {
        self.insert(metadata)
    }

    /// Every media entry with its handle, in handle order; sidecars are left
    /// out.
    pub fn iter_media(&self) -> (r: Vec<(FileHandle, &Entry)>)
        requires
            self.wf(),
        ensures
            lists_media(self@, r@),
    {
        let mut out: Vec<(FileHandle, &Entry)> = Vec::new();
        let mut i: usize = 0;
        while i < self.slots.len()
            invariant
                self.wf(),
                i <= self@.len(),
                out@.len() == media_handles(self@, i as nat).len(),
                forall|j: int|
                    0 <= j < out@.len() ==> {
                        &&& (#[trigger] out@[j]).0 == media_handles(self@, i as nat)[j]
                        &&& *out@[j].1 == entry_at(self@, out@[j].0)
                    },
            decreases self@.len() - i,
        {
            match &self.slots[i] {
                Some(e) => match &e.role {
                    Role::Media => {
                        out.push((i as u32, e));
                    },
                    Role::Sidecar(_) => {},
                },
                None => {},
            }
            i += 1;
        }
        out
    }

    /// Validates the tags of every media entry, in handle order. Every entry
    /// is checked, whatever the findings for the others.
    pub fn validate_tags(&self) -> (r: Vec<(FileHandle, Vec<TagWarning>)>)
        requires
            self.wf(),
        ensures
            reports_tags(self@, r@),
    {
        let mut out: Vec<(FileHandle, Vec<TagWarning>)> = Vec::new();
        let mut i: usize = 0;
        while i < self.slots.len()
            invariant
                self.wf(),
                i <= self@.len(),
                out@.len() == media_handles(self@, i as nat).len(),
                forall|j: int|
                    0 <= j < out@.len() ==> {
                        &&& (#[trigger] out@[j]).0 == media_handles(self@, i as nat)[j]
                        &&& out@[j].1@ == tag_warnings(entry_at(self@, out@[j].0).metadata)
                    },
            decreases self@.len() - i,
        {
            match &self.slots[i] {
                Some(e) => match &e.role {
                    Role::Media => {
                        out.push((i as u32, e.metadata.validate_tags()));
                    },
                    Role::Sidecar(_) => {},
                },
                None => {},
            }
            i += 1;
        }
        out
    }
}

} // verus!
