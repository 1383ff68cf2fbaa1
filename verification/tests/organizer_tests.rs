use photo_organizer::error::Error;
use photo_organizer::metadata::{Metadata, Severity, Tag, TagWarning};
use photo_organizer::organizer::{
    rename_format, CopyIntent, Deduplication, MoveIntent, MovePlan, Organizer, Removal,
    SidecarIntent, Step, SyncPlan,
};

fn live_photo(path: &str, format: &str, modified: &str, codec: Option<&str>) -> Metadata {
    Metadata {
        source_file: path.to_string(),
        file_modify_date: modified.to_string(),
        file_type: format.to_string(),
        file_type_extension: format.to_lowercase(),
        content_identifier: Some("session-1".to_string()),
        compressor_id: codec.map(|s| s.to_string()),
        date_time_original: Some("2023-04-05 12:34:56 +0000".to_string()),
        ..Default::default()
    }
}

fn plain(path: &str) -> Metadata {
    Metadata { source_file: path.to_string(), ..Default::default() }
}

fn batch() -> Vec<Metadata> {
    vec![
        live_photo("IMG_0001.HEIC", "HEIC", "2023-04-05 12:34:57 +0000", None),
        live_photo("IMG_0001.JPEG", "JPEG", "2023-04-05 12:34:56 +0000", None),
        live_photo("IMG_0001.MOV", "MOV", "2023-04-05 12:34:56 +0000", Some("avc1")),
    ]
}

fn kept(path: &str) -> Removal {
    Removal { path: path.to_string(), trash: None }
}

fn trashed(path: &str, trash: &str) -> Removal {
    Removal { path: path.to_string(), trash: Some(trash.to_string()) }
}

#[test]
fn pipeline_deduplicates_and_synchronises_a_live_photo() {
    let mut organizer = Organizer::import(batch());

    assert_eq!(
        organizer.remove_live_photo_duplicates(),
        Ok(Deduplication {
            reports: vec![(0, vec![1])],
            removals: vec![kept("IMG_0001.JPEG")],
        })
    );
    assert_eq!(organizer.get_metadata(1), Err(Error::NotFound));
    assert_eq!(organizer.remove_leftover_live_photo_videos(), vec![]);
    assert_eq!(organizer.remove_leftover_sidecars(), Vec::<String>::new());

    assert_eq!(
        organizer.synchronize_live_photo_metadata(),
        SyncPlan {
            copies: vec![CopyIntent {
                source: "IMG_0001.HEIC".to_string(),
                handle: 2,
                sink: "IMG_0001.MOV".to_string(),
            }],
            ambiguous: vec![],
        }
    );

    let mut copied = live_photo("IMG_0001.MOV", "MOV", "2023-04-06 00:00:00 +0000", Some("avc1"));
    copied.artist = Some("me".to_string());
    assert_eq!(organizer.update(2, copied.clone()), Ok(()));
    assert_eq!(organizer.get_metadata(2), Ok(&copied));
}

#[test]
fn synchronisation_reads_from_the_sidecar_if_it_was_created_first() {
    let mut records = batch();
    records.push(plain("IMG_0001.HEIC.xmp"));
    records.push(plain("IMG_0001.MOV.xmp"));
    let mut organizer = Organizer::import(records);
    assert_eq!(
        organizer.remove_live_photo_duplicates().map(|d| d.reports),
        Ok(vec![(0, vec![1])])
    );
    assert_eq!(
        organizer.synchronize_live_photo_metadata().copies,
        vec![
            CopyIntent {
                source: "IMG_0001.HEIC.xmp".to_string(),
                handle: 2,
                sink: "IMG_0001.MOV".to_string(),
            },
            CopyIntent {
                source: "IMG_0001.HEIC.xmp".to_string(),
                handle: 4,
                sink: "IMG_0001.MOV.xmp".to_string(),
            },
        ]
    );
}

#[test]
fn removed_files_go_to_the_trash_of_a_library() {
    let mut records = batch();
    records.push(plain("IMG_0001.JPEG.xmp"));
    let mut organizer = Organizer::load_library(records, "lib/trash");
    assert_eq!(
        organizer.remove_live_photo_duplicates(),
        Ok(Deduplication {
            reports: vec![(0, vec![1])],
            removals: vec![
                trashed("IMG_0001.JPEG", "lib/trash"),
                trashed("IMG_0001.JPEG.xmp", "lib/trash"),
            ],
        })
    );
    assert_eq!(organizer.get_metadata(1), Err(Error::NotFound));
    assert_eq!(organizer.get_metadata(3), Err(Error::NotFound));
    assert_eq!(organizer.remove_leftover_sidecars(), Vec::<String>::new());
}

#[test]
fn malformed_timestamp_aborts_deduplication() {
    let mut records = batch();
    records[1].file_modify_date = "2023-04-05 12:34:56".to_string();
    let mut organizer = Organizer::import(records.clone());
    assert_eq!(
        organizer.remove_live_photo_duplicates(),
        Err(Error::MalformedTimestamp)
    );
    // Nothing was removed.
    assert_eq!(organizer.get_metadata(1), Ok(&records[1]));
    assert_eq!(
        organizer.synchronize_live_photo_metadata(),
        SyncPlan { copies: vec![], ambiguous: vec![(vec![0, 1], vec![2])] }
    );
}

#[test]
fn timestamps_of_files_without_duplicates_are_not_read() {
    let mut organizer = Organizer::import(vec![
        live_photo("a.HEIC", "HEIC", "garbage", None),
        live_photo("a.MOV", "MOV", "", Some("hev1")),
    ]);
    assert_eq!(
        organizer.remove_live_photo_duplicates(),
        Ok(Deduplication { reports: vec![], removals: vec![] })
    );
}

#[test]
fn leftover_videos_are_removed_with_their_sidecars() {
    let mut organizer = Organizer::load_library(
        vec![
            live_photo("a.MOV", "MOV", "", Some("avc1")),
            plain("a.MOV.xmp"),
            plain("b.jpg"),
        ],
        "trash",
    );
    assert_eq!(
        organizer.remove_leftover_live_photo_videos(),
        vec![trashed("a.MOV", "trash"), trashed("a.MOV.xmp", "trash")]
    );
    assert_eq!(organizer.get_metadata(0), Err(Error::NotFound));
    assert_eq!(organizer.get_metadata(1), Err(Error::NotFound));
    assert_eq!(organizer.get_metadata(2), Ok(&plain("b.jpg")));
    assert_eq!(organizer.remove_leftover_live_photo_videos(), vec![]);
    assert_eq!(
        organizer.synchronize_live_photo_metadata(),
        SyncPlan { copies: vec![], ambiguous: vec![] }
    );
}

#[test]
fn leftover_sidecars_are_reported_by_path() {
    let mut organizer =
        Organizer::import(vec![plain("gone.jpg.xmp"), plain("a.jpg"), plain("a.jpg.xmp")]);
    assert_eq!(
        organizer.remove_leftover_sidecars(),
        vec!["gone.jpg.xmp".to_string()]
    );
    assert_eq!(organizer.get_metadata(0), Err(Error::NotFound));
    assert_eq!(organizer.remove_leftover_sidecars(), Vec::<String>::new());
}

#[test]
fn image_without_video_has_nothing_to_synchronise() {
    let organizer = Organizer::import(vec![live_photo("a.HEIC", "HEIC", "", None)]);
    assert_eq!(
        organizer.synchronize_live_photo_metadata(),
        SyncPlan { copies: vec![], ambiguous: vec![] }
    );
}

#[test]
fn missing_sidecars_are_planned_and_fed_back() {
    let mut organizer =
        Organizer::import(vec![plain("a.jpg"), plain("b.mov"), plain("a.jpg.xmp")]);
    assert_eq!(
        organizer.create_missing_sidecars(),
        vec![SidecarIntent { media: "b.mov".to_string(), sidecar: "b.mov.xmp".to_string() }]
    );
    assert_eq!(organizer.insert_sidecar(plain("b.mov.xmp")), 3);
    assert_eq!(organizer.create_missing_sidecars(), vec![]);
    assert_eq!(organizer.get_metadata(3), Ok(&plain("b.mov.xmp")));
}

#[test]
fn rename_formats() {
    assert_eq!(
        rename_format("lib", "jpg", false),
        "-FileName<lib/${DateTimeOriginal}.jpg"
    );
    assert_eq!(
        rename_format("lib", "jpg", true),
        "-FileName<lib/${DateTimeOriginal}.jpg.xmp"
    );
}

#[test]
fn files_move_with_their_sidecars_and_undated_files_stay() {
    let mut dated = plain("in/a.jpeg");
    dated.file_type_extension = "jpg".to_string();
    dated.date_time_original = Some("2023-04-05 12:34:56 +0000".to_string());
    let mut bare = plain("in/b.mov");
    bare.file_type_extension = "mov".to_string();
    bare.date_time_original = Some("2023-04-05 12:34:56 +0000".to_string());
    let organizer = Organizer::import(vec![
        dated,
        plain("in/a.jpeg.xmp"),
        plain("in/undated.jpg"),
        plain("in/undated.jpg.xmp"),
        bare,
    ]);
    assert_eq!(
        organizer.move_and_rename_files("lib"),
        MovePlan {
            moves: vec![
                MoveIntent {
                    handle: 0,
                    path: "in/a.jpeg".to_string(),
                    rename_format: "-FileName<lib/${DateTimeOriginal}.jpg".to_string(),
                    tag_source: "in/a.jpeg.xmp".to_string(),
                },
                MoveIntent {
                    handle: 1,
                    path: "in/a.jpeg.xmp".to_string(),
                    rename_format: "-FileName<lib/${DateTimeOriginal}.jpg.xmp".to_string(),
                    tag_source: "in/a.jpeg.xmp".to_string(),
                },
                MoveIntent {
                    handle: 4,
                    path: "in/b.mov".to_string(),
                    rename_format: "-FileName<lib/${DateTimeOriginal}.mov".to_string(),
                    tag_source: "in/b.mov".to_string(),
                },
            ],
            skipped: vec![2],
        }
    );
}

#[test]
fn update_of_a_stale_handle_is_not_found() {
    let mut organizer = Organizer::import(vec![plain("a.jpg")]);
    assert_eq!(organizer.update(5, plain("b.jpg")), Err(Error::NotFound));
    assert_eq!(organizer.get_metadata(0), Ok(&plain("a.jpg")));
}

#[test]
fn validate_tags_reports_each_media_file() {
    let organizer = Organizer::import(vec![plain("a.jpg.xmp"), plain("a.jpg")]);
    let report = organizer.validate_tags();
    assert_eq!(report.len(), 1);
    assert_eq!(report[0].0, 1);
    assert_eq!(report[0].1.len(), 12);
    assert_eq!(
        report[0].1[0],
        TagWarning { tag: Tag::GpsAltitude, severity: Severity::Warning }
    );
}

#[test]
fn new_takes_the_trash_as_given() {
    let mut with_trash = Organizer::new(
        vec![live_photo("a.MOV", "MOV", "", Some("avc1"))],
        Some("t".to_string()),
    );
    assert_eq!(
        with_trash.remove_leftover_live_photo_videos(),
        vec![trashed("a.MOV", "t")]
    );
    let mut without = Organizer::new(vec![live_photo("a.MOV", "MOV", "", Some("avc1"))], None);
    assert_eq!(without.remove_leftover_live_photo_videos(), vec![kept("a.MOV")]);
}

#[test]
fn pipeline_runs_its_steps_in_the_fixed_order() {
    let mut steps = vec![Step::first()];
    while let Some(next) = steps[steps.len() - 1].next() {
        steps.push(next);
    }
    assert_eq!(
        steps,
        vec![
            Step::RemoveDuplicates,
            Step::RemoveLeftoverVideos,
            Step::RemoveLeftoverSidecars,
            Step::SynchronizeMetadata,
            Step::ValidateTags,
            Step::CreateMissingSidecars,
            Step::MoveAndRename,
        ]
    );
}

#[test]
fn trash_and_handle_count_are_reported() {
    let mut library = Organizer::load_library(vec![plain("a.jpg")], "lib/trash");
    assert_eq!(library.trash(), Some(&"lib/trash".to_string()));
    assert_eq!(library.handle_count(), 1);
    assert_eq!(library.insert_sidecar(plain("a.jpg.xmp")), 1);
    assert_eq!(library.handle_count(), 2);
    let import = Organizer::import(Vec::new());
    assert_eq!(import.trash(), None);
    assert_eq!(import.handle_count(), 0);
}
