use std::collections::HashMap;

use photo_organizer::catalog::Catalog;
use photo_organizer::live_photo_linker::{
    classify_for_linking, flatten_duplicates, LivePhotoLinker, MediaClass,
};
use photo_organizer::metadata::{Metadata, ModifyDate};

fn image(path: &str, format: &str, id: &str) -> Metadata {
    Metadata {
        source_file: path.to_string(),
        file_type: format.to_string(),
        file_type_extension: format.to_lowercase(),
        content_identifier: Some(id.to_string()),
        ..Default::default()
    }
}

fn video(path: &str, codec: Option<&str>, id: Option<&str>) -> Metadata {
    Metadata {
        source_file: path.to_string(),
        file_type: "MOV".to_string(),
        file_type_extension: "mov".to_string(),
        content_identifier: id.map(|s| s.to_string()),
        compressor_id: codec.map(|s| s.to_string()),
        ..Default::default()
    }
}

fn linker_of(records: Vec<Metadata>) -> LivePhotoLinker {
    let catalog = Catalog::new(records);
    LivePhotoLinker::new(catalog.iter_media())
}

fn types(entries: &[(u32, &str)]) -> HashMap<u32, String> {
    entries.iter().map(|(h, t)| (*h, t.to_string())).collect()
}

fn dates(entries: &[(u32, i64)]) -> HashMap<u32, ModifyDate> {
    entries
        .iter()
        .map(|(h, s)| (*h, ModifyDate { seconds: *s, nanos: 0 }))
        .collect()
}

#[test]
fn classification_for_linking() {
    assert_eq!(classify_for_linking(&image("a", "JPEG", "x")), Some(MediaClass::Image));
    assert_eq!(classify_for_linking(&image("a", "HEIC", "x")), Some(MediaClass::Image));
    assert_eq!(classify_for_linking(&image("a", "PNG", "x")), None);
    assert_eq!(classify_for_linking(&image("a", "heic", "x")), None);
    let mut by_extension_only = image("a", "JPG", "x");
    by_extension_only.file_type_extension = "JPEG".to_string();
    assert_eq!(classify_for_linking(&by_extension_only), None);
    assert_eq!(
        classify_for_linking(&video("a", Some("avc1"), Some("x"))),
        Some(MediaClass::Video)
    );
    assert_eq!(
        classify_for_linking(&video("a", Some("hev1"), Some("x"))),
        Some(MediaClass::Video)
    );
    assert_eq!(classify_for_linking(&video("a", Some("mp4v"), Some("x"))), None);
    assert_eq!(classify_for_linking(&video("a", None, Some("x"))), None);
    assert_eq!(classify_for_linking(&video("a", Some("avc1"), None)), None);
    let mut untagged = image("a", "JPEG", "x");
    untagged.content_identifier = None;
    assert_eq!(classify_for_linking(&untagged), None);
}

#[test]
fn groups_are_formed_by_session_in_order_of_appearance() {
    let linker = linker_of(vec![
        image("a.heic", "HEIC", "one"),
        image("b.jpg", "JPEG", "two"),
        video("a.mov", Some("avc1"), Some("one")),
        video("c.mov", Some("hev1"), Some("three")),
        image("b2.jpg", "JPEG", "two"),
        video("x.mov", Some("xxxx"), Some("one")),
        image("plain.png", "PNG", "one"),
    ]);
    assert_eq!(
        linker.iter(),
        vec![(vec![0], vec![2]), (vec![1, 4], vec![]), (vec![], vec![3])]
    );
}

#[test]
fn sidecars_and_unlinked_files_are_never_grouped() {
    let sidecar = image("a.heic.xmp", "HEIC", "one");
    let linker = linker_of(vec![
        sidecar,
        video("b.mov", Some("avc1"), None),
        Metadata { source_file: "c.jpg".to_string(), ..Default::default() },
    ]);
    assert_eq!(linker.iter(), vec![]);
    assert_eq!(linker.duplicate_candidates(), vec![]);
}

#[test]
fn preferred_format_wins_whatever_the_dates() {
    // A@t1(JPEG), B@t2(HEIC), t2 > t1.
    let mut linker = linker_of(vec![image("a.jpg", "JPEG", "s"), image("b.heic", "HEIC", "s")]);
    let reports = linker.remove_duplicates(
        &types(&[(0, "JPEG"), (1, "HEIC")]),
        &dates(&[(0, 100), (1, 200)]),
    );
    assert_eq!(reports, vec![(1, vec![0])]);
    assert_eq!(linker.iter(), vec![(vec![1], vec![])]);

    // The same with the dates the other way round.
    let mut linker = linker_of(vec![image("a.jpg", "JPEG", "s"), image("b.heic", "HEIC", "s")]);
    let reports = linker.remove_duplicates(
        &types(&[(0, "JPEG"), (1, "HEIC")]),
        &dates(&[(0, 200), (1, 100)]),
    );
    assert_eq!(reports, vec![(1, vec![0])]);

    // And with the preferred format first.
    let mut linker = linker_of(vec![image("a.heic", "HEIC", "s"), image("b.jpg", "JPEG", "s")]);
    let reports = linker.remove_duplicates(
        &types(&[(0, "HEIC"), (1, "JPEG")]),
        &dates(&[(0, 100), (1, 200)]),
    );
    assert_eq!(reports, vec![(0, vec![1])]);
}

#[test]
fn latest_modification_wins_among_equal_formats() {
    // A@t1(HEIC), B@t2(HEIC), t2 > t1.
    let mut linker = linker_of(vec![image("a.heic", "HEIC", "s"), image("b.heic", "HEIC", "s")]);
    let reports = linker.remove_duplicates(
        &types(&[(0, "HEIC"), (1, "HEIC")]),
        &dates(&[(0, 100), (1, 200)]),
    );
    assert_eq!(reports, vec![(1, vec![0])]);
    assert_eq!(linker.iter(), vec![(vec![1], vec![])]);
}

#[test]
fn first_wins_among_equal_formats_and_dates() {
    // A@t1(HEIC), B@t1(HEIC).
    let mut linker = linker_of(vec![image("a.heic", "HEIC", "s"), image("b.heic", "HEIC", "s")]);
    let reports = linker.remove_duplicates(
        &types(&[(0, "HEIC"), (1, "HEIC")]),
        &dates(&[(0, 100), (1, 100)]),
    );
    assert_eq!(reports, vec![(0, vec![1])]);
    assert_eq!(linker.iter(), vec![(vec![0], vec![])]);
}

#[test]
fn nanoseconds_break_ties_between_seconds() {
    let mut linker = linker_of(vec![image("a.jpg", "JPEG", "s"), image("b.jpg", "JPEG", "s")]);
    let mut modified = HashMap::new();
    modified.insert(0, ModifyDate { seconds: 100, nanos: 1 });
    modified.insert(1, ModifyDate { seconds: 100, nanos: 2 });
    let reports = linker.remove_duplicates(&types(&[(0, "JPEG"), (1, "JPEG")]), &modified);
    assert_eq!(reports, vec![(1, vec![0])]);
}

#[test]
fn duplicates_are_reported_in_list_order() {
    let mut linker = linker_of(vec![
        image("a.jpg", "JPEG", "s"),
        image("b.jpg", "JPEG", "s"),
        image("c.heic", "HEIC", "s"),
        image("d.heic", "HEIC", "s"),
        image("e.jpg", "JPEG", "s"),
    ]);
    assert_eq!(linker.duplicate_candidates(), vec![0, 1, 2, 3, 4]);
    let reports = linker.remove_duplicates(
        &types(&[(0, "JPEG"), (1, "JPEG"), (2, "HEIC"), (3, "HEIC"), (4, "JPEG")]),
        &dates(&[(0, 900), (1, 800), (2, 50), (3, 50), (4, 1000)]),
    );
    assert_eq!(reports, vec![(2, vec![0, 1, 3, 4])]);
    assert_eq!(flatten_duplicates(&reports), vec![0, 1, 3, 4]);
    assert_eq!(linker.iter(), vec![(vec![2], vec![])]);
}

#[test]
fn videos_are_resolved_independently_of_images() {
    let mut linker = linker_of(vec![
        image("a.jpg", "JPEG", "s"),
        video("a.mov", Some("avc1"), Some("s")),
        image("a.heic", "HEIC", "s"),
        video("a2.mov", Some("hev1"), Some("s")),
        image("b.heic", "HEIC", "t"),
        video("b.mov", Some("avc1"), Some("t")),
    ]);
    assert_eq!(linker.duplicate_candidates(), vec![0, 2, 1, 3]);
    let reports = linker.remove_duplicates(
        &types(&[(0, "JPEG"), (1, "MOV"), (2, "HEIC"), (3, "MOV")]),
        &dates(&[(0, 10), (1, 10), (2, 5), (3, 20)]),
    );
    assert_eq!(reports, vec![(2, vec![0]), (3, vec![1])]);
    assert_eq!(flatten_duplicates(&reports), vec![0, 1]);
    assert_eq!(linker.iter(), vec![(vec![2], vec![3]), (vec![4], vec![5])]);
}

#[test]
fn lone_video_is_leftover_and_no_duplicate() {
    let mut linker = linker_of(vec![video("a.mov", Some("avc1"), Some("s"))]);
    assert_eq!(linker.duplicate_candidates(), vec![]);
    assert_eq!(linker.remove_duplicates(&HashMap::new(), &HashMap::new()), vec![]);
    assert_eq!(linker.iter(), vec![(vec![], vec![0])]);
    assert_eq!(linker.remove_leftover_videos(), vec![0]);
    assert_eq!(linker.remove_leftover_videos(), vec![]);
    assert_eq!(linker.iter(), vec![]);
}

#[test]
fn complete_pair_is_never_reported() {
    let mut linker = linker_of(vec![
        image("a.heic", "HEIC", "s"),
        video("a.mov", Some("avc1"), Some("s")),
    ]);
    assert_eq!(linker.duplicate_candidates(), vec![]);
    assert_eq!(linker.remove_duplicates(&HashMap::new(), &HashMap::new()), vec![]);
    assert_eq!(linker.remove_leftover_videos(), vec![]);
    assert_eq!(linker.iter(), vec![(vec![0], vec![1])]);
}

#[test]
fn leftover_videos_come_in_group_then_list_order() {
    let mut linker = linker_of(vec![
        video("a.mov", Some("avc1"), Some("one")),
        video("b.mov", Some("avc1"), Some("two")),
        image("c.heic", "HEIC", "three"),
        video("a2.mov", Some("hev1"), Some("one")),
        video("c.mov", Some("avc1"), Some("three")),
        image("d.jpg", "JPEG", "four"),
    ]);
    assert_eq!(linker.remove_leftover_videos(), vec![0, 3, 1]);
    assert_eq!(linker.iter(), vec![(vec![2], vec![4]), (vec![5], vec![])]);
}

#[test]
fn leftover_detection_sees_groups_as_deduplication_left_them() {
    let mut linker = linker_of(vec![
        video("a.mov", Some("avc1"), Some("s")),
        video("b.mov", Some("avc1"), Some("s")),
    ]);
    let reports = linker.remove_duplicates(
        &types(&[(0, "MOV"), (1, "MOV")]),
        &dates(&[(0, 1), (1, 2)]),
    );
    assert_eq!(reports, vec![(1, vec![0])]);
    assert_eq!(linker.remove_leftover_videos(), vec![1]);
    assert_eq!(linker.iter(), vec![]);
}

#[test]
fn resolved_groups_stay_resolved() {
    let mut linker = linker_of(vec![
        image("a.jpg", "JPEG", "s"),
        image("a.heic", "HEIC", "s"),
        video("a.mov", Some("avc1"), Some("s")),
        video("a2.mov", Some("avc1"), Some("s")),
    ]);
    let lookups = types(&[(0, "JPEG"), (1, "HEIC"), (2, "MOV"), (3, "MOV")]);
    let modified = dates(&[(0, 4), (1, 3), (2, 2), (3, 1)]);
    assert_eq!(linker.iter(), vec![(vec![0, 1], vec![2, 3])]);
    assert_eq!(
        linker.remove_duplicates(&lookups, &modified),
        vec![(1, vec![0]), (2, vec![3])]
    );
    for (images, videos) in linker.iter() {
        assert!(images.len() <= 1);
        assert!(videos.len() <= 1);
    }
    assert_eq!(linker.iter(), vec![(vec![1], vec![2])]);
    assert_eq!(linker.duplicate_candidates(), vec![]);
    assert_eq!(linker.remove_duplicates(&lookups, &modified), vec![]);
    assert_eq!(linker.iter(), vec![(vec![1], vec![2])]);
}

#[test]
fn empty_linker() {
    let mut linker = LivePhotoLinker::new(Vec::new());
    assert_eq!(linker.iter(), vec![]);
    assert_eq!(linker.remove_duplicates(&HashMap::new(), &HashMap::new()), vec![]);
    assert_eq!(linker.remove_leftover_videos(), vec![]);
}
