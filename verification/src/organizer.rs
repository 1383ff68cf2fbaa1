//! The organizer: the fixed pipeline over a catalog and its linker.
//!
//! Every step takes its decisions here and hands them back as plain data:
//! which files left the catalog and where they go, which tags to copy from
//! where to where, which sidecars to create, which files to move. The caller
//! carries them out and feeds what it read back through
//! [`Organizer::update`] and [`Organizer::insert_sidecar`].

use std::collections::HashMap;
use vstd::prelude::*;

use crate::catalog::{
    entry_at, holds_records, inserted, is_media, lemma_media_handles_members,
    lemma_remove_keeps_media, lemma_sidecars_of_members, lists_media, live, lookup, media_handles,
    metadata_source, missing_sidecars, orphans, path_at, remove_all, removed, removed_in_turn,
    removed_paths, reports_tags, sidecar_path_of, sidecars_of, sinks_of, stale_stays_stale,
    well_formed, without_orphans, Catalog, Entry, Slots,
};
use crate::error::Error;
use crate::live_photo_linker::{
    candidate_parts, candidates, candidates_of, deduplicated, distinct_listing, doomed,
    duplicate_reports, flatten_duplicates, handles_of, leftover_videos,
    copy_handles, lemma_deduplicated, lemma_flat_reports, lemma_linked, lemma_without_leftover,
    linked_all, listing, listing_of, listing_parts, occurs, pair_views, report_views, tagged,
    well_linked, without_leftover, Groups, LivePhotoLinker,
};
use crate::metadata::{modify_date_of, FileHandle, Metadata, ModifyDate, TagWarning};
use crate::seqs::{
    concat, concat_all, lemma_add_contains, lemma_concat_members, lemma_push_contains,
};
use crate::text::clone_opt;

verus! {

broadcast use vstd::std_specs::hash::group_hash_axioms;

/// A step of the pipeline.
#[derive(Clone, Copy, Debug, PartialEq, Eq, Structural)]
pub enum Step {
    RemoveDuplicates,
    RemoveLeftoverVideos,
    RemoveLeftoverSidecars,
    SynchronizeMetadata,
    ValidateTags,
    CreateMissingSidecars,
    MoveAndRename,
}

/// The pipeline: its steps in the one order in which they are run. Each
/// step is finished before the next begins.
pub open spec fn pipeline() -> Seq<Step> {
    seq![
        Step::RemoveDuplicates,
        Step::RemoveLeftoverVideos,
        Step::RemoveLeftoverSidecars,
        Step::SynchronizeMetadata,
        Step::ValidateTags,
        Step::CreateMissingSidecars,
        Step::MoveAndRename,
    ]
}

impl Step {
    /// The place of this step in the pipeline.
    pub open spec fn position(self) -> int {
        match self {
            Step::RemoveDuplicates => 0,
            Step::RemoveLeftoverVideos => 1,
            Step::RemoveLeftoverSidecars => 2,
            Step::SynchronizeMetadata => 3,
            Step::ValidateTags => 4,
            Step::CreateMissingSidecars => 5,
            Step::MoveAndRename => 6,
        }
    }

    /// The step that a run begins with.
    pub fn first() -> (r: Step)
        ensures
            r == pipeline()[0],
    {
        Step::RemoveDuplicates
    }

    /// The step that follows this one, if any.
    pub fn next(self) -> (r: Option<Step>)
        ensures
            pipeline()[self.position()] == self,
            match r {
                Some(step) => self.position() + 1 < pipeline().len() && step == pipeline()[
                    self.position() + 1
                ],
                None => self.position() + 1 == pipeline().len(),
            },
    {
        match self {
            Step::RemoveDuplicates => Some(Step::RemoveLeftoverVideos),
            Step::RemoveLeftoverVideos => Some(Step::RemoveLeftoverSidecars),
            Step::RemoveLeftoverSidecars => Some(Step::SynchronizeMetadata),
            Step::SynchronizeMetadata => Some(Step::ValidateTags),
            Step::ValidateTags => Some(Step::CreateMissingSidecars),
            Step::CreateMissingSidecars => Some(Step::MoveAndRename),
            Step::MoveAndRename => None,
        }
    }
}

/// A file that left the catalog, and the trash directory to relocate it
/// under, if one is configured.
#[derive(Debug, PartialEq, Eq)]
pub struct Removal {
    pub path: String,
    pub trash: Option<String>,
}

/// The outcome of duplicate resolution.
#[derive(Debug, PartialEq, Eq)]
pub struct Deduplication {
    /// For every list that had duplicates: the kept handle, and the handles
    /// of its duplicates.
    pub reports: Vec<(FileHandle, Vec<FileHandle>)>,
    /// The files that left the catalog.
    pub removals: Vec<Removal>,
}

/// Tags to copy from the file at `source` onto the file at `sink`, whose
/// record `handle` is to be updated afterwards.
#[derive(Debug, PartialEq, Eq)]
pub struct CopyIntent {
    pub source: String,
    pub handle: FileHandle,
    pub sink: String,
}

/// What metadata synchronisation asks for.
#[derive(Debug, PartialEq, Eq)]
pub struct SyncPlan {
    /// The copies to make, in group order.
    pub copies: Vec<CopyIntent>,
    /// The groups that still have more than one image or video, and are
    /// skipped for it.
    pub ambiguous: Vec<(Vec<FileHandle>, Vec<FileHandle>)>,
}

/// A sidecar to create at `sidecar` for the media file at `media`.
#[derive(Debug, PartialEq, Eq)]
pub struct SidecarIntent {
    pub media: String,
    pub sidecar: String,
}

/// A file to rename by `rename_format`, with the tags of `tag_source`,
/// whose record `handle` is to be updated afterwards.
#[derive(Debug, PartialEq, Eq)]
pub struct MoveIntent {
    pub handle: FileHandle,
    pub path: String,
    pub rename_format: String,
    pub tag_source: String,
}

/// A move, by the characters of its strings.
pub struct MoveIntentView {
    pub handle: FileHandle,
    pub path: Seq<char>,
    pub rename_format: Seq<char>,
    pub tag_source: Seq<char>,
}

/// What moving and renaming asks for.
#[derive(Debug, PartialEq, Eq)]
pub struct MovePlan {
    /// The moves to make: each media file, followed by its sidecars.
    pub moves: Vec<MoveIntent>,
    /// The media files that stay in place for want of a capture time.
    pub skipped: Vec<FileHandle>,
}

impl View for MoveIntent {
    type V = MoveIntentView;

    open spec fn view(&self) -> MoveIntentView {
        MoveIntentView {
            handle: self.handle,
            path: self.path@,
            rename_format: self.rename_format@,
            tag_source: self.tag_source@,
        }
    }
}

/// The copies for one group: from the image, or its sidecar, onto the video
/// and its sidecars, if the group is one image and one video.
pub open spec fn copies_of(c: Slots, pair: (Seq<FileHandle>, Seq<FileHandle>)) -> Seq<CopyIntent> {
    if pair.0.len() == 1 && pair.1.len() == 1 {
        sinks_of(c, pair.1[0]).map_values(
            |s: (FileHandle, String)|
                CopyIntent { source: metadata_source(c, pair.0[0]), handle: s.0, sink: s.1 },
        )
    } else {
        Seq::empty()
    }
}

/// The group itself, if it has more than one image or video.
pub open spec fn ambiguous_of(pair: (Seq<FileHandle>, Seq<FileHandle>)) -> Seq<
    (Seq<FileHandle>, Seq<FileHandle>),
> {
    if pair.0.len() > 1 || pair.1.len() > 1 {
        seq![pair]
    } else {
        Seq::empty()
    }
}

/// The copies for every listed group, group by group.
pub open spec fn copy_parts(c: Slots, pairs: Seq<(Seq<FileHandle>, Seq<FileHandle>)>) -> Seq<
    Seq<CopyIntent>,
> {
    pairs.map_values(|p: (Seq<FileHandle>, Seq<FileHandle>)| copies_of(c, p))
}

/// The ambiguous groups among the listed ones, group by group.
pub open spec fn ambiguous_parts(pairs: Seq<(Seq<FileHandle>, Seq<FileHandle>)>) -> Seq<
    Seq<(Seq<FileHandle>, Seq<FileHandle>)>,
> {
    pairs.map_values(|p: (Seq<FileHandle>, Seq<FileHandle>)| ambiguous_of(p))
}

/// `plan` asks for one sidecar for each media file without one, in handle
/// order, at the media path with the sidecar suffix.
pub open spec fn plans_sidecars(c: Slots, plan: Seq<SidecarIntent>) -> bool {
    &&& plan.len() == missing_sidecars(c, c.len()).len()
    &&& forall|j: int|
        0 <= j < plan.len() ==> {
            &&& (#[trigger] plan[j]).media == missing_sidecars(c, c.len())[j]
            &&& plan[j].sidecar@ == sidecar_path_of(plan[j].media@)
        }
}

/// The rename format for a media file with the extension `extension`:
/// into `destination`, named by capture time.
pub open spec fn media_rename_format(destination: Seq<char>, extension: Seq<char>) -> Seq<char> {
    "-FileName<"@ + destination + "/${DateTimeOriginal}."@ + extension
}

/// The rename format for the sidecar of such a media file: the same name
/// with the sidecar suffix.
pub open spec fn sidecar_rename_format(destination: Seq<char>, extension: Seq<char>) -> Seq<char> {
    media_rename_format(destination, extension) + ".xmp"@
}

/// The moves for the media file `h`: none if it has no capture time, else
/// its own and then those of its sidecars, all named by the tags that are
/// read for `h`.
pub open spec fn moves_of(c: Slots, destination: Seq<char>, h: FileHandle) -> Seq<MoveIntentView> {
    let m = entry_at(c, h).metadata;
    if m.date_time_original is None {
        Seq::empty()
    } else {
        seq![
            MoveIntentView {
                handle: h,
                path: m.source_file@,
                rename_format: media_rename_format(destination, m.file_type_extension@),
                tag_source: metadata_source(c, h)@,
            },
        ] + sidecars_of(c, path_at(c, h), c.len()).map_values(
            |k: FileHandle|
                MoveIntentView {
                    handle: k,
                    path: path_at(c, k),
                    rename_format: sidecar_rename_format(destination, m.file_type_extension@),
                    tag_source: metadata_source(c, h)@,
                },
        )
    }
}

/// The media file `h` itself, if it has no capture time.
pub open spec fn skipped_of(c: Slots, h: FileHandle) -> Seq<FileHandle> {
    if entry_at(c, h).metadata.date_time_original is None {
        seq![h]
    } else {
        Seq::empty()
    }
}

/// The moves for every media file, file by file in handle order.
pub open spec fn move_parts(c: Slots, destination: Seq<char>) -> Seq<Seq<MoveIntentView>> {
    media_handles(c, c.len()).map_values(|h: FileHandle| moves_of(c, destination, h))
}

/// The skipped media files, file by file in handle order.
pub open spec fn skipped_parts(c: Slots) -> Seq<Seq<FileHandle>> {
    media_handles(c, c.len()).map_values(|h: FileHandle| skipped_of(c, h))
}

/// The moves as sequences of characters.
pub open spec fn intent_views(moves: Seq<MoveIntent>) -> Seq<MoveIntentView> {
    moves.map_values(|m: MoveIntent| m@)
}

/// The rename format for a media file, or for its sidecar.
pub fn rename_format(destination: &str, extension: &str, sidecar: bool) -> (r: String)
    ensures
        r@ == (if sidecar {
            sidecar_rename_format(destination@, extension@)
        } else {
            media_rename_format(destination@, extension@)
        }),
{
    let mut format = "-FileName<".to_owned();
    format.append(destination);
    format.append("/${DateTimeOriginal}.");
    format.append(extension);
    if sidecar {
        format.append(".xmp");
    }
    format
}

/// Every linked handle is a live media entry.
pub open spec fn consistent(c: Slots, groups: Groups) -> bool {
    forall|h: FileHandle| #[trigger] occurs(groups, h) ==> is_media(c, h)
}

/// The handle and the tags of every media entry, in handle order.
pub open spec fn media_records(c: Slots) -> Seq<(FileHandle, Metadata)> {
    media_handles(c, c.len()).map_values(|h: FileHandle| (h, entry_at(c, h).metadata))
}

/// One removal for each path, all with the same trash directory.
pub open spec fn removals_for(paths: Seq<String>, trash: Option<String>) -> Seq<Removal> {
    paths.map_values(|p: String| Removal { path: p, trash })
}

/// The format of each of `handles`, by handle.
pub open spec fn file_type_table(c: Slots, handles: Seq<FileHandle>) -> Map<FileHandle, String> {
    Map::new(
        |h: FileHandle| handles.contains(h),
        |h: FileHandle| entry_at(c, h).metadata.file_type,
    )
}

/// The modification time of each of `handles`, by handle.
pub open spec fn modify_date_table(c: Slots, handles: Seq<FileHandle>) -> Map<
    FileHandle,
    ModifyDate,
> {
    Map::new(
        |h: FileHandle| handles.contains(h),
        |h: FileHandle| modify_date_of(entry_at(c, h).metadata.file_modify_date@)->Ok_0,
    )
}

/// Whether the modification time of each of `handles` parses.
pub open spec fn dates_parse(c: Slots, handles: Seq<FileHandle>) -> bool {
    forall|h: FileHandle|
        handles.contains(h) ==> #[trigger] modify_date_of(
            entry_at(c, h).metadata.file_modify_date@,
        ) is Ok
}

/// The catalog, the linker over it, and where removed files go.
pub struct Organizer {
    trash: Option<String>,
    catalog: Catalog,
    live_photo_linker: LivePhotoLinker,
}

impl Organizer {
    /// The catalog's slots.
    pub closed spec fn catalog(&self) -> Slots {
        self.catalog@
    }

    /// The linker's groups.
    pub closed spec fn groups(&self) -> Groups {
        self.live_photo_linker@
    }

    /// The trash directory, if one is configured.
    pub closed spec fn trash_root(&self) -> Option<String> {
        self.trash
    }

    /// The organizer's invariant: catalog and linker are each in order, and
    /// the linker speaks of live media entries only.
    pub open spec fn wf(&self) -> bool {
        &&& well_formed(self.catalog())
        &&& well_linked(self.groups())
        &&& consistent(self.catalog(), self.groups())
    }

    /// An organizer for files to import: `records` is the scan of the
    /// directory to import. Removed files stay where they are.
    pub fn import(records: Vec<Metadata>) -> (r: Organizer)
        requires
            records@.len() <= u32::MAX,
        ensures
            r.wf(),
            r.trash_root() is None,
            holds_records(r.catalog(), records@),
            r.groups() == linked_all(media_records(r.catalog())),
    {
        Organizer::new(records, None)
    }

    /// An organizer for an existing library: `records` is the scan of the
    /// library without its trash directory. Removed files go to `trash`.
    pub fn load_library(records: Vec<Metadata>, trash: &str) -> (r: Organizer)
        requires
            records@.len() <= u32::MAX,
        ensures
            r.wf(),
            r.trash_root() is Some,
            r.trash_root()->0@ == trash@,
            holds_records(r.catalog(), records@),
            r.groups() == linked_all(media_records(r.catalog())),
    {
        Organizer::new(records, Some(trash.to_owned()))
    }

    /// Catalogs `records` and links their Live Photos.
    pub fn new(records: Vec<Metadata>, trash: Option<String>) -> (r: Organizer)
        requires
            records@.len() <= u32::MAX,
        ensures
            r.wf(),
            r.trash_root() == trash,
            holds_records(r.catalog(), records@),
            r.groups() == linked_all(media_records(r.catalog())),
    {
        let catalog = Catalog::new(records);
        let media = catalog.iter_media();
        proof {
            let c = catalog@;
            lemma_media_handles_members(c, c.len());
            assert(tagged(media@) =~= media_records(c));
            assert(distinct_listing(media_records(c)));
            lemma_linked(media_records(c), media_records(c).len());
            assert forall|h: FileHandle| #[trigger]
                occurs(linked_all(media_records(c)), h) implies is_media(c, h) by {
                let i = choose|i: int|
                    0 <= i < media_records(c).len() && (#[trigger] media_records(c)[i]).0 == h;
                assert(media_handles(c, c.len()).contains(media_handles(c, c.len())[i]));
            }
        }
        let live_photo_linker = LivePhotoLinker::new(media);
        Organizer { trash, catalog, live_photo_linker }
    }

    /// The number of handles handed out so far, removed ones included.
    pub fn handle_count(&self) -> (n: usize)
        ensures
            n == self.catalog().len(),
    {
        self.catalog.handle_count()
    }

    /// The trash directory, if one is configured.
    pub fn trash(&self) -> (r: Option<&String>)
        ensures
            match r {
                Some(t) => self.trash_root() == Some(*t),
                None => self.trash_root() is None,
            },
    {
        self.trash.as_ref()
    }

    /// The record of `h`. Fails with `NotFound` exactly when `h` is stale.
    pub fn get_metadata(&self, h: FileHandle) -> (r: Result<&Metadata, Error>)
        ensures
            match r {
                Ok(m) => lookup(self.catalog(), h) == Ok::<Metadata, Error>(*m),
                Err(e) => lookup(self.catalog(), h) == Err::<Metadata, Error>(e),
            },
    {
        self.catalog.get_metadata(h)
    }

    /// Replaces the record of `h` with what was read after a copy or a move.
    /// Fails with `NotFound`, changing nothing, exactly when `h` is stale.
    pub fn update(&mut self, h: FileHandle, metadata: Metadata) -> (r: Result<(), Error>)
        requires
            old(self).wf(),
        ensures
            final(self).wf(),
            final(self).groups() == old(self).groups(),
            final(self).trash_root() == old(self).trash_root(),
            stale_stays_stale(old(self).catalog(), final(self).catalog()),
            match r {
                Ok(_) => {
                    let c = old(self).catalog();
                    &&& live(c, h)
                    &&& final(self).catalog() == c.update(
                        h as int,
                        Some(Entry { handle: h, metadata, role: entry_at(c, h).role }),
                    )
                },
                Err(e) => {
                    &&& e == Error::NotFound
                    &&& !live(old(self).catalog(), h)
                    &&& final(self).catalog() == old(self).catalog()
                },
            },
    {
        let r = self.catalog.update(h, metadata);
        proof {
            assert forall|k: FileHandle| #[trigger]
                occurs(self.groups(), k) implies is_media(self.catalog(), k) by {
                assert(is_media(old(self).catalog(), k));
            }
        }
        r
    }

    /// Tracks a sidecar that was just created, from the record read from it.
    pub fn insert_sidecar(&mut self, metadata: Metadata) -> (h: FileHandle)
        requires
            old(self).wf(),
            old(self).catalog().len() < u32::MAX,
        ensures
            final(self).wf(),
            final(self).groups() == old(self).groups(),
            final(self).trash_root() == old(self).trash_root(),
            inserted(old(self).catalog(), final(self).catalog(), h, metadata),
            stale_stays_stale(old(self).catalog(), final(self).catalog()),
    {
        let h = self.catalog.insert_sidecar(metadata);
        proof {
            assert forall|k: FileHandle| #[trigger]
                occurs(self.groups(), k) implies is_media(self.catalog(), k) by {
                assert(is_media(old(self).catalog(), k));
                assert(self.catalog().drop_last()[k as int] == self.catalog()[k as int]);
            }
        }
        h
    }

    /// Removes `h` from the catalog, with its sidecars if it is a media
    /// file, and says where the removed files go.
    fn remove_from_catalog(&mut self, h: FileHandle) -> (r: Vec<Removal>)
        requires
            well_formed(old(self).catalog()),
            live(old(self).catalog(), h),
        ensures
            well_formed(final(self).catalog()),
            final(self).catalog() == removed(old(self).catalog(), h),
            final(self).groups() == old(self).groups(),
            final(self).trash_root() == old(self).trash_root(),
            r@ == removals_for(removed_paths(old(self).catalog(), h), old(self).trash_root()),
    {
        let mut out: Vec<Removal> = Vec::new();
        match self.catalog.remove(h) {
            Ok(paths) => {
                let ghost trash = self.trash;
                let mut i: usize = 0;
                assert(out@ =~= removals_for(paths@.take(0), trash));
                while i < paths.len()
                    invariant
                        i <= paths@.len(),
                        trash == self.trash,
                        out@ == removals_for(paths@.take(i as int), trash),
                    decreases paths@.len() - i,
                {
                    out.push(Removal { path: paths[i].clone(), trash: clone_opt(&self.trash) });
                    assert(out@ =~= removals_for(paths@.take(i + 1), trash));
                    i += 1;
                }
                assert(paths@.take(i as int) =~= paths@);
            },
            Err(_) => {},
        }
        out
    }

    /// Removes `handles` from the catalog, one after the other.
    fn remove_all_from_catalog(&mut self, handles: &Vec<FileHandle>) -> (r: Vec<Removal>)
        requires
            well_formed(old(self).catalog()),
            handles@.no_duplicates(),
            forall|j: int| 0 <= j < handles@.len() ==> is_media(old(self).catalog(), handles@[j]),
        ensures
            well_formed(final(self).catalog()),
            final(self).catalog() == remove_all(old(self).catalog(), handles@, handles@.len()),
            final(self).groups() == old(self).groups(),
            final(self).trash_root() == old(self).trash_root(),
            r@ == removals_for(
                removed_in_turn(old(self).catalog(), handles@, handles@.len()),
                old(self).trash_root(),
            ),
            forall|k: FileHandle|
                is_media(old(self).catalog(), k) && !handles@.contains(k) ==> #[trigger] is_media(
                    final(self).catalog(),
                    k,
                ),
    {
        let ghost c = old(self).catalog();
        let ghost trash = old(self).trash_root();
        let mut out: Vec<Removal> = Vec::new();
        let mut i: usize = 0;
        assert(out@ =~= removals_for(removed_in_turn(c, handles@, 0), trash));
        while i < handles.len()
            invariant
                i <= handles@.len(),
                c == old(self).catalog(),
                trash == old(self).trash_root(),
                self.trash_root() == trash,
                self.groups() == old(self).groups(),
                handles@.no_duplicates(),
                forall|j: int| 0 <= j < handles@.len() ==> is_media(c, handles@[j]),
                well_formed(self.catalog()),
                self.catalog() == remove_all(c, handles@, i as nat),
                out@ == removals_for(removed_in_turn(c, handles@, i as nat), trash),
                forall|k: FileHandle|
                    is_media(c, k) && !handles@.take(i as int).contains(k) ==> #[trigger] is_media(
                        self.catalog(),
                        k,
                    ),
            decreases handles@.len() - i,
        {
            let h = handles[i];
            let ghost before = self.catalog();
            proof {
                let prev = handles@.take(i as int);
                if prev.contains(h) {
                    let j = choose|j: int| 0 <= j < prev.len() && prev[j] == h;
                    assert(handles@[j] == handles@[i as int]);
                }
                assert(is_media(before, h));
            }
            let mut removals = self.remove_from_catalog(h);
            out.append(&mut removals);
            proof {
                assert(out@ =~= removals_for(
                    removed_in_turn(c, handles@, (i + 1) as nat),
                    trash,
                ));
                assert forall|k: FileHandle|
                    is_media(c, k) && !handles@.take(i + 1).contains(k) implies #[trigger] is_media(
                    self.catalog(),
                    k,
                ) by {
                    let prev = handles@.take(i as int);
                    let next = handles@.take(i + 1);
                    assert(next =~= prev.push(h));
                    lemma_push_contains(prev, h, k);
                    assert(k != h);
                    assert(is_media(before, k));
                    lemma_remove_keeps_media(before, h, k);
                }
            }
            i += 1;
        }
        assert(handles@.take(i as int) =~= handles@);
        out
    }

    /// Resolves the duplicates of every Live Photo, which mostly exist
    /// because a photo is there as both JPEG and HEIC, and removes them from
    /// the catalog. HEIC is kept over any other format, then the file
    /// modified last. Fails with `MalformedTimestamp`, changing nothing,
    /// exactly when the modification time of a file that has to be compared
    /// does not parse.
    pub fn remove_live_photo_duplicates(&mut self) -> (r: Result<Deduplication, Error>)
        requires
            old(self).wf(),
        ensures
            final(self).wf(),
            final(self).trash_root() == old(self).trash_root(),
            stale_stays_stale(old(self).catalog(), final(self).catalog()),
            match r {
                Ok(d) => {
                    let c = old(self).catalog();
                    let types = file_type_table(c, candidates(old(self).groups()));
                    let dates = modify_date_table(c, candidates(old(self).groups()));
                    let gone = doomed(types, dates, old(self).groups());
                    &&& dates_parse(c, candidates(old(self).groups()))
                    &&& final(self).groups() == deduplicated(types, dates, old(self).groups())
                    &&& report_views(d.reports@) == duplicate_reports(
                        types,
                        dates,
                        old(self).groups(),
                    )
                    &&& final(self).catalog() == remove_all(c, gone, gone.len())
                    &&& d.removals@ == removals_for(
                        removed_in_turn(c, gone, gone.len()),
                        old(self).trash_root(),
                    )
                },
                Err(e) => {
                    &&& e == Error::MalformedTimestamp
                    &&& !dates_parse(old(self).catalog(), candidates(old(self).groups()))
                    &&& final(self).catalog() == old(self).catalog()
                    &&& final(self).groups() == old(self).groups()
                },
            },
    {
        let ghost c = self.catalog();
        let ghost groups = self.groups();
        let wanted = self.live_photo_linker.duplicate_candidates();
        proof {
            lemma_concat_members(candidate_parts(groups), groups.len());
            assert forall|h: FileHandle| wanted@.contains(h) implies is_media(c, h) by {
                let i = choose|i: int|
                    0 <= i < groups.len() && #[trigger] candidate_parts(groups)[i].contains(h);
                let g = groups[i];
                let a = if g.images.len() > 1 {
                    g.images
                } else {
                    Seq::empty()
                };
                let b = if g.videos.len() > 1 {
                    g.videos
                } else {
                    Seq::empty()
                };
                lemma_add_contains(a, b, h);
                lemma_add_contains(g.images, g.videos, h);
                assert(handles_of(groups[i]).contains(h));
                assert(occurs(groups, h));
            }
        }
        let mut file_types: HashMap<FileHandle, String> = HashMap::new();
        let mut modify_dates: HashMap<FileHandle, ModifyDate> = HashMap::new();
        let mut i: usize = 0;
        assert(file_types@ =~= file_type_table(c, wanted@.take(0)));
        assert(modify_dates@ =~= modify_date_table(c, wanted@.take(0)));
        while i < wanted.len()
            invariant
                i <= wanted@.len(),
                c == self.catalog(),
                self.catalog() == old(self).catalog(),
                self.groups() == old(self).groups(),
                self.trash_root() == old(self).trash_root(),
                self.wf(),
                wanted@ == candidates(self.groups()),
                forall|h: FileHandle| wanted@.contains(h) ==> is_media(c, h),
                file_types@ == file_type_table(c, wanted@.take(i as int)),
                modify_dates@ == modify_date_table(c, wanted@.take(i as int)),
                dates_parse(c, wanted@.take(i as int)),
            decreases wanted@.len() - i,
        {
            let h = wanted[i];
            assert(wanted@.contains(h));
            assert(is_media(c, h));
            // A candidate is linked, so it is live and this cannot fail.
            let m = match self.catalog.get_metadata(h) {
                Ok(m) => m,
                Err(e) => {
                    return Err(e);
                },
            };
            let date = match m.get_file_modify_date() {
                Ok(date) => date,
                Err(e) => {
                    assert(!(modify_date_of(entry_at(c, h).metadata.file_modify_date@) is Ok));
                    return Err(e);
                },
            };
            file_types.insert(h, m.file_type.clone());
            modify_dates.insert(h, date);
            proof {
                let prev = wanted@.take(i as int);
                let next = wanted@.take(i + 1);
                assert(next =~= prev.push(h));
                assert forall|k: FileHandle| #![trigger next.contains(k)]
                    next.contains(k) <==> (k == h || prev.contains(k)) by {
                    lemma_push_contains(prev, h, k);
                }
                assert(file_types@ =~= file_type_table(c, wanted@.take(i + 1)));
                assert(modify_dates@ =~= modify_date_table(c, wanted@.take(i + 1)));
            }
            i += 1;
        }
        assert(wanted@.take(i as int) =~= wanted@);
        proof {
            assert forall|j: int, h: FileHandle|
                0 <= j < groups.len() && #[trigger] candidates_of(groups[j]).contains(
                    h,
                ) implies file_types@.contains_key(h) && modify_dates@.contains_key(h) by {
                assert(candidate_parts(groups)[j].contains(h));
                assert(wanted@.contains(h));
            }
            lemma_deduplicated(file_types@, modify_dates@, groups);
            lemma_flat_reports(file_types@, modify_dates@, groups);
        }
        let reports = self.live_photo_linker.remove_duplicates(&file_types, &modify_dates);
        let gone = flatten_duplicates(&reports);
        proof {
            assert forall|j: int| 0 <= j < gone@.len() implies is_media(c, gone@[j]) by {
                assert(gone@.contains(gone@[j]));
                assert(occurs(groups, gone@[j]));
            }
        }
        let removals = self.remove_all_from_catalog(&gone);
        proof {
            assert forall|k: FileHandle| #[trigger]
                occurs(self.groups(), k) implies is_media(self.catalog(), k) by {
                assert(occurs(groups, k));
                assert(!gone@.contains(k));
            }
            lemma_remove_all_keeps_stale(c, gone@, gone@.len());
        }
        Ok(Deduplication { reports, removals })
    }

    /// Removes every Live Photo video whose image is gone, from the linker
    /// and from the catalog.
    pub fn remove_leftover_live_photo_videos(&mut self) -> (r: Vec<Removal>)
        requires
            old(self).wf(),
        ensures
            final(self).wf(),
            final(self).trash_root() == old(self).trash_root(),
            stale_stays_stale(old(self).catalog(), final(self).catalog()),
            final(self).groups() == without_leftover(old(self).groups()),
            final(self).catalog() == remove_all(
                old(self).catalog(),
                leftover_videos(old(self).groups()),
                leftover_videos(old(self).groups()).len(),
            ),
            r@ == removals_for(
                removed_in_turn(
                    old(self).catalog(),
                    leftover_videos(old(self).groups()),
                    leftover_videos(old(self).groups()).len(),
                ),
                old(self).trash_root(),
            ),
    {
        let ghost c = self.catalog();
        let ghost groups = self.groups();
        proof {
            lemma_without_leftover(groups);
        }
        let gone = self.live_photo_linker.remove_leftover_videos();
        proof {
            assert forall|j: int| 0 <= j < gone@.len() implies is_media(c, gone@[j]) by {
                assert(gone@.contains(gone@[j]));
                assert(occurs(groups, gone@[j]));
            }
        }
        let removals = self.remove_all_from_catalog(&gone);
        proof {
            assert forall|k: FileHandle| #[trigger]
                occurs(self.groups(), k) implies is_media(self.catalog(), k) by {
                assert(occurs(groups, k));
                assert(!gone@.contains(k));
            }
            lemma_remove_all_keeps_stale(c, gone@, gone@.len());
        }
        removals
    }

    /// Removes every sidecar whose media file is not in the catalog, and
    /// returns the paths of the removed sidecars, in handle order. The files
    /// themselves stay where they are.
    pub fn remove_leftover_sidecars(&mut self) -> (r: Vec<String>)
        requires
            old(self).wf(),
        ensures
            final(self).wf(),
            final(self).groups() == old(self).groups(),
            final(self).trash_root() == old(self).trash_root(),
            stale_stays_stale(old(self).catalog(), final(self).catalog()),
            final(self).catalog() == without_orphans(old(self).catalog()),
            r@ == orphans(old(self).catalog(), old(self).catalog().len()).map_values(
                |e: Entry| e.metadata.source_file,
            ),
    {
        let ghost path = |e: Entry| e.metadata.source_file;
        let entries = self.catalog.remove_leftover_sidecars();
        let mut out: Vec<String> = Vec::new();
        let mut i: usize = 0;
        assert(out@ =~= entries@.take(0).map_values(path));
        while i < entries.len()
            invariant
                i <= entries@.len(),
                path == |e: Entry| e.metadata.source_file,
                out@ == entries@.take(i as int).map_values(path),
            decreases entries@.len() - i,
        {
            out.push(entries[i].metadata.source_file.clone());
            assert(out@ =~= entries@.take(i + 1).map_values(path));
            i += 1;
        }
        proof {
            assert(entries@.take(i as int) =~= entries@);
            assert forall|k: FileHandle| #[trigger]
                occurs(self.groups(), k) implies is_media(self.catalog(), k) by {
                assert(is_media(old(self).catalog(), k));
            }
        }
        out
    }

    /// Checks the tags of every media file. Sidecars are not checked.
    pub fn validate_tags(&self) -> (r: Vec<(FileHandle, Vec<TagWarning>)>)
        requires
            self.wf(),
        ensures
            reports_tags(self.catalog(), r@),
    {
        self.catalog.validate_tags()
    }
    /// Plans the copying of tags from each Live Photo image onto its video,
    /// which keeps capture time and position consistent. Tags are read from
    /// the image's sidecar if it has one, and written to the video and to its
    /// sidecars. A group that still has more than one image or video is
    /// reported and skipped; a group that lacks an image or a video has
    /// nothing to copy.
    pub fn synchronize_live_photo_metadata(&self) -> (r: SyncPlan)
        requires
            self.wf(),
        ensures
            r.copies@ == concat_all(copy_parts(self.catalog(), listing(self.groups()))),
            pair_views(r.ambiguous@) == concat_all(ambiguous_parts(listing(self.groups()))),
    {
        let ghost c = self.catalog();
        let ghost groups = self.groups();
        let ghost listed = listing(groups);
        let ghost cparts = copy_parts(c, listed);
        let ghost aparts = ambiguous_parts(listed);
        let pairs = self.live_photo_linker.iter();
        let mut copies: Vec<CopyIntent> = Vec::new();
        let mut ambiguous: Vec<(Vec<FileHandle>, Vec<FileHandle>)> = Vec::new();
        assert(pair_views(ambiguous@) =~= concat(aparts, 0));
        let mut j: usize = 0;
        while j < pairs.len()
            invariant
                j <= pairs@.len(),
                self.wf(),
                c == self.catalog(),
                groups == self.groups(),
                listed == listing(groups),
                pair_views(pairs@) == listed,
                cparts == copy_parts(c, listed),
                aparts == ambiguous_parts(listed),
                copies@ == concat(cparts, j as nat),
                pair_views(ambiguous@) == concat(aparts, j as nat),
            decreases pairs@.len() - j,
        {
            let images = &pairs[j].0;
            let videos = &pairs[j].1;
            let ghost pair = listed[j as int];
            assert(pair == (images@, videos@));
            let ghost base = copies@;
            let ghost noted = pair_views(ambiguous@);
            if images.len() > 1 || videos.len() > 1 {
                ambiguous.push((copy_handles(images), copy_handles(videos)));
                assert(pair_views(ambiguous@) =~= noted + ambiguous_of(pair));
                assert(copies@ =~= base + copies_of(c, pair));
            } else if images.len() == 1 && videos.len() == 1 {
                proof {
                    lemma_concat_members(listing_parts(groups), groups.len());
                    assert(listed.contains(pair));
                    let i = choose|i: int|
                        0 <= i < groups.len() && #[trigger] listing_parts(groups)[i].contains(pair);
                    let t = choose|t: int|
                        0 <= t < listing_of(groups[i]).len() && listing_of(groups[i])[t] == pair;
                    assert(pair == (groups[i].images, groups[i].videos));
                    lemma_add_contains(groups[i].images, groups[i].videos, images@[0]);
                    lemma_add_contains(groups[i].images, groups[i].videos, videos@[0]);
                    assert(groups[i].images.contains(images@[0]));
                    assert(groups[i].videos.contains(videos@[0]));
                    assert(handles_of(groups[i]).contains(images@[0]));
                    assert(handles_of(groups[i]).contains(videos@[0]));
                    assert(occurs(groups, images@[0]) && occurs(groups, videos@[0]));
                }
                match self.catalog.get_metadata_source_path(images[0]) {
                    Ok(source) => match self.catalog.get_media_sinks(videos[0]) {
                        Ok(sinks) => {
                            let mut k: usize = 0;
                            while k < sinks.len()
                                invariant
                                    k <= sinks@.len(),
                                    copies@.len() == base.len() + k,
                                    forall|x: int| 0 <= x < base.len() ==> copies@[x] == base[x],
                                    forall|t: int|
                                        0 <= t < k ==> copies@[base.len() + t] == (CopyIntent {
                                            source,
                                            handle: sinks@[t].0,
                                            sink: sinks@[t].1,
                                        }),
                                decreases sinks@.len() - k,
                            {
                                copies.push(
                                    CopyIntent {
                                        source: source.clone(),
                                        handle: sinks[k].0,
                                        sink: sinks[k].1.clone(),
                                    },
                                );
                                k += 1;
                            }
                            assert(copies@ =~= base + copies_of(c, pair));
                        },
                        Err(_) => {},
                    },
                    Err(_) => {},
                }
                assert(pair_views(ambiguous@) =~= noted + ambiguous_of(pair));
            } else {
                assert(pair_views(ambiguous@) =~= noted + ambiguous_of(pair));
                assert(copies@ =~= base + copies_of(c, pair));
            }
            j += 1;
        }
        SyncPlan { copies, ambiguous }
    }

    /// Plans a sidecar for every media file that has none.
    pub fn create_missing_sidecars(&self) -> (r: Vec<SidecarIntent>)
        requires
            self.wf(),
        ensures
            plans_sidecars(self.catalog(), r@),
    {
        let missing = self.catalog.get_missing_sidecars();
        let mut out: Vec<SidecarIntent> = Vec::new();
        let mut i: usize = 0;
        while i < missing.len()
            invariant
                i <= missing@.len(),
                out@.len() == i,
                forall|j: int|
                    0 <= j < i ==> {
                        &&& (#[trigger] out@[j]).media == missing@[j]
                        &&& out@[j].sidecar@ == sidecar_path_of(out@[j].media@)
                    },
            decreases missing@.len() - i,
        {
            let media = missing[i].clone();
            let mut sidecar = missing[i].clone();
            sidecar.append(".xmp");
            out.push(SidecarIntent { media, sidecar });
            i += 1;
        }
        out
    }

    /// Plans the move of every media file and its sidecars into
    /// `destination`, named by capture time and with the extension of the
    /// file's format. A media file without a capture time is skipped and
    /// stays in place, with its sidecars.
    pub fn move_and_rename_files(&self, destination: &str) -> (r: MovePlan)
        requires
            self.wf(),
        ensures
            intent_views(r.moves@) == concat_all(move_parts(self.catalog(), destination@)),
            r.skipped@ == concat_all(skipped_parts(self.catalog())),
    {
        let ghost c = self.catalog();
        let ghost mparts = move_parts(c, destination@);
        let ghost sparts = skipped_parts(c);
        let media = self.catalog.iter_media();
        let mut moves: Vec<MoveIntent> = Vec::new();
        let mut skipped: Vec<FileHandle> = Vec::new();
        assert(intent_views(moves@) =~= concat(mparts, 0));
        let mut j: usize = 0;
        proof {
            lemma_media_handles_members(c, c.len());
        }
        while j < media.len()
            invariant
                j <= media@.len(),
                self.wf(),
                c == self.catalog(),
                lists_media(c, media@),
                forall|k: FileHandle|
                    #![trigger media_handles(c, c.len()).contains(k)]
                    media_handles(c, c.len()).contains(k) ==> is_media(c, k),
                mparts == move_parts(c, destination@),
                sparts == skipped_parts(c),
                intent_views(moves@) == concat(mparts, j as nat),
                skipped@ == concat(sparts, j as nat),
            decreases media@.len() - j,
        {
            let h = media[j].0;
            let entry = media[j].1;
            assert(h == media_handles(c, c.len())[j as int]);
            assert(media_handles(c, c.len()).contains(h));
            assert(*entry == entry_at(c, h));
            let ghost base = intent_views(moves@);
            let ghost left = skipped@;
            if entry.metadata.date_time_original.is_none() {
                skipped.push(h);
                assert(skipped@ =~= left + skipped_of(c, h));
                assert(intent_views(moves@) =~= base + moves_of(c, destination@, h));
            } else {
                let extension = entry.metadata.file_type_extension.as_str();
                match self.catalog.get_metadata_source_path(h) {
                    Ok(source) => match self.catalog.get_media_sinks(h) {
                        Ok(sinks) => {
                            moves.push(
                                MoveIntent {
                                    handle: h,
                                    path: entry.metadata.source_file.clone(),
                                    rename_format: rename_format(destination, extension, false),
                                    tag_source: source.clone(),
                                },
                            );
                            let ghost sidecars = sidecars_of(c, path_at(c, h), c.len());
                            let ghost expected = moves_of(c, destination@, h);
                            proof {
                                lemma_sidecars_of_members(c, path_at(c, h), c.len());
                            }
                            assert(expected.len() == 1 + sidecars.len());
                            assert(sinks@.len() == 1 + sidecars.len());
                            assert(moves@[base.len() as int]@ == expected[0]);
                            let mut k: usize = 1;
                            while k < sinks.len()
                                invariant
                                    1 <= k <= sinks@.len(),
                                    is_media(c, h),
                                    entry_at(c, h).metadata.date_time_original is Some,
                                    sinks@ == sinks_of(c, h),
                                    sinks@.len() == 1 + sidecars.len(),
                                    sidecars == sidecars_of(c, path_at(c, h), c.len()),
                                    forall|s: FileHandle|
                                        sidecars.contains(s) ==> #[trigger] live(c, s),
                                    expected == moves_of(c, destination@, h),
                                    expected.len() == 1 + sidecars.len(),
                                    extension@ == entry_at(c, h).metadata.file_type_extension@,
                                    source == metadata_source(c, h),
                                    moves@.len() == base.len() + k,
                                    forall|x: int|
                                        0 <= x < base.len() ==> (#[trigger] moves@[x])@ == base[x],
                                    forall|t: int|
                                        0 <= t < k ==> (#[trigger] moves@[base.len() + t])@
                                            == expected[t],
                                decreases sinks@.len() - k,
                            {
                                assert(sidecars.contains(sidecars[k - 1]));
                                assert(sinks@[k as int] == (
                                    sidecars[k - 1],
                                    entry_at(c, sidecars[k - 1]).metadata.source_file,
                                ));
                                assert(expected[k as int] == MoveIntentView {
                                    handle: sidecars[k - 1],
                                    path: path_at(c, sidecars[k - 1]),
                                    rename_format: sidecar_rename_format(
                                        destination@,
                                        entry_at(c, h).metadata.file_type_extension@,
                                    ),
                                    tag_source: metadata_source(c, h)@,
                                });
                                let ghost before = moves@;
                                moves.push(
                                    MoveIntent {
                                        handle: sinks[k].0,
                                        path: sinks[k].1.clone(),
                                        rename_format: rename_format(destination, extension, true),
                                        tag_source: source.clone(),
                                    },
                                );
                                assert forall|t: int| 0 <= t < k + 1 implies (
                                #[trigger] moves@[base.len() + t])@ == expected[t] by {
                                    if t < k {
                                        assert(moves@[base.len() + t] == before[base.len() + t]);
                                    }
                                }
                                k += 1;
                            }
                            assert forall|x: int| base.len() <= x < moves@.len() implies intent_views(
                                moves@,
                            )[x] == (base + expected)[x] by {
                                let t = x - base.len();
                                assert(moves@[base.len() + t]@ == expected[t]);
                            }
                            assert(intent_views(moves@) =~= base + expected);
                        },
                        Err(_) => {},
                    },
                    Err(_) => {},
                }
                assert(skipped@ =~= left + skipped_of(c, h));
            }
            j += 1;
        }
        MovePlan { moves, skipped }
    }
}

/// Removing files one after the other revives no stale handle.
pub proof fn lemma_remove_all_keeps_stale(c: Slots, handles: Seq<FileHandle>, n: nat)
    requires
        n <= handles.len(),
    ensures
        stale_stays_stale(c, remove_all(c, handles, n)),
    decreases n,
{
    if n > 0 {
        lemma_remove_all_keeps_stale(c, handles, (n - 1) as nat);
        let before = remove_all(c, handles, (n - 1) as nat);
        assert forall|h: FileHandle| #![trigger live(remove_all(c, handles, n), h)]
            (h as int) < c.len() && !live(c, h) implies !live(remove_all(c, handles, n), h) by {
            assert(!live(before, h));
        }
    }
}

} // verus!
