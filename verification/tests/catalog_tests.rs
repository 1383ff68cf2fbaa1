use photo_organizer::catalog::{classify, Catalog, Entry, Role};
use photo_organizer::error::Error;
use photo_organizer::metadata::{Metadata, Severity, Tag, TagWarning};

fn file(path: &str) -> Metadata {
    Metadata { source_file: path.to_string(), ..Default::default() }
}

fn retagged(path: &str, artist: &str) -> Metadata {
    Metadata {
        source_file: path.to_string(),
        artist: Some(artist.to_string()),
        ..Default::default()
    }
}

#[test]
fn classify_by_suffix() {
    assert_eq!(classify("a.jpg"), Role::Media);
    assert_eq!(classify("a.jpg.xmp"), Role::Sidecar("a.jpg".to_string()));
    assert_eq!(classify("dir/a.xmp"), Role::Sidecar("dir/a".to_string()));
    assert_eq!(classify("a.XMP"), Role::Media);
    assert_eq!(classify("a.xmpp"), Role::Media);
    assert_eq!(classify("axmp"), Role::Media);
    assert_eq!(classify(""), Role::Media);
}

#[test]
fn classify_needs_a_file_name_before_the_suffix() {
    assert_eq!(classify(".xmp"), Role::Media);
    assert_eq!(classify("dir/.xmp"), Role::Media);
    assert_eq!(classify("x.xmp"), Role::Sidecar("x".to_string()));
}

#[test]
fn classify_counts_characters_not_bytes() {
    assert_eq!(classify("é.xmp"), Role::Sidecar("é".to_string()));
    assert_eq!(classify("日本/写真.heic.xmp"), Role::Sidecar("日本/写真.heic".to_string()));
}

#[test]
fn new_hands_out_handles_in_order() {
    let catalog = Catalog::new(vec![file("a.jpg"), file("a.jpg.xmp"), file("b.mov")]);
    assert_eq!(catalog.get_metadata(0), Ok(&file("a.jpg")));
    assert_eq!(catalog.get_metadata(1), Ok(&file("a.jpg.xmp")));
    assert_eq!(catalog.get_metadata(2), Ok(&file("b.mov")));
    assert_eq!(catalog.get_metadata(3), Err(Error::NotFound));
}

#[test]
fn insert_then_get_metadata_returns_the_record() {
    let mut catalog = Catalog::new(Vec::new());
    let records = [retagged("a.jpg", "x"), file("b.heic"), retagged("a.jpg.xmp", "y")];
    let mut handles = Vec::new();
    for r in records.iter() {
        let h = catalog.insert(r.clone());
        assert_eq!(catalog.get_metadata(h), Ok(r));
        handles.push(h);
    }
    assert_eq!(handles, vec![0, 1, 2]);
    for (h, r) in handles.iter().zip(records.iter()) {
        assert_eq!(catalog.get_metadata(*h), Ok(r));
    }
}

#[test]
fn unknown_handle_is_not_found() {
    let mut catalog = Catalog::new(vec![file("a.jpg")]);
    assert_eq!(catalog.get_metadata(7), Err(Error::NotFound));
    assert_eq!(catalog.get_metadata_source_path(7), Err(Error::NotFound));
    assert_eq!(catalog.get_media_sinks(7), Err(Error::NotFound));
    assert_eq!(catalog.update(7, file("b.jpg")), Err(Error::NotFound));
    assert_eq!(catalog.remove(7), Err(Error::NotFound));
    assert_eq!(catalog.get_metadata(u32::MAX), Err(Error::NotFound));
    assert_eq!(catalog.get_metadata(0), Ok(&file("a.jpg")));
}

#[test]
fn removed_handle_is_stale_for_good() {
    let mut catalog = Catalog::new(vec![file("a.jpg"), file("b.jpg")]);
    assert_eq!(catalog.remove(0), Ok(vec!["a.jpg".to_string()]));
    assert_eq!(catalog.get_metadata(0), Err(Error::NotFound));
    assert_eq!(catalog.update(0, file("a.jpg")), Err(Error::NotFound));
    assert_eq!(catalog.remove(0), Err(Error::NotFound));
    assert_eq!(catalog.get_metadata_source_path(0), Err(Error::NotFound));
    assert_eq!(catalog.get_media_sinks(0), Err(Error::NotFound));
    assert_eq!(catalog.get_metadata(1), Ok(&file("b.jpg")));
    let h = catalog.insert(file("c.jpg"));
    assert_eq!(h, 2);
    assert_eq!(catalog.get_metadata(0), Err(Error::NotFound));
    assert_eq!(catalog.get_metadata(1), Ok(&file("b.jpg")));
    assert_eq!(catalog.get_metadata(2), Ok(&file("c.jpg")));
}

#[test]
fn remove_media_takes_its_sidecar() {
    let mut catalog =
        Catalog::new(vec![file("a.jpg"), file("b.jpg"), file("a.jpg.xmp"), file("b.jpg.xmp")]);
    assert_eq!(
        catalog.remove(0),
        Ok(vec!["a.jpg".to_string(), "a.jpg.xmp".to_string()])
    );
    assert_eq!(catalog.get_metadata(2), Err(Error::NotFound));
    assert_eq!(catalog.get_metadata(1), Ok(&file("b.jpg")));
    assert_eq!(catalog.get_metadata(3), Ok(&file("b.jpg.xmp")));
    assert_eq!(catalog.remove_leftover_sidecars(), vec![]);
    assert_eq!(catalog.get_metadata(3), Ok(&file("b.jpg.xmp")));
}

#[test]
fn remove_sidecar_leaves_its_media() {
    let mut catalog = Catalog::new(vec![file("a.jpg"), file("a.jpg.xmp")]);
    assert_eq!(catalog.remove(1), Ok(vec!["a.jpg.xmp".to_string()]));
    assert_eq!(catalog.get_metadata(0), Ok(&file("a.jpg")));
    assert_eq!(catalog.get_missing_sidecars(), vec!["a.jpg".to_string()]);
}

#[test]
fn remove_leftover_sidecars_removes_orphans_only() {
    let mut catalog = Catalog::new(vec![
        file("gone.jpg.xmp"),
        file("a.jpg"),
        file("a.jpg.xmp"),
        file("lost.mov.xmp"),
    ]);
    let removed = catalog.remove_leftover_sidecars();
    assert_eq!(
        removed,
        vec![
            Entry {
                handle: 0,
                metadata: file("gone.jpg.xmp"),
                role: Role::Sidecar("gone.jpg".to_string())
            },
            Entry {
                handle: 3,
                metadata: file("lost.mov.xmp"),
                role: Role::Sidecar("lost.mov".to_string())
            },
        ]
    );
    assert_eq!(catalog.get_metadata(0), Err(Error::NotFound));
    assert_eq!(catalog.get_metadata(3), Err(Error::NotFound));
    assert_eq!(catalog.get_metadata(1), Ok(&file("a.jpg")));
    assert_eq!(catalog.get_metadata(2), Ok(&file("a.jpg.xmp")));
    assert_eq!(catalog.remove_leftover_sidecars(), vec![]);
}

#[test]
fn sidecar_before_its_media_is_no_orphan() {
    let mut catalog = Catalog::new(vec![file("a.jpg.xmp"), file("a.jpg")]);
    assert_eq!(catalog.remove_leftover_sidecars(), vec![]);
    assert_eq!(catalog.get_metadata_source_path(1), Ok("a.jpg.xmp".to_string()));
}

#[test]
fn metadata_is_read_from_the_sidecar_if_there_is_one() {
    let catalog = Catalog::new(vec![file("a.jpg"), file("b.jpg"), file("a.jpg.xmp")]);
    assert_eq!(catalog.get_metadata_source_path(0), Ok("a.jpg.xmp".to_string()));
    assert_eq!(catalog.get_metadata_source_path(1), Ok("b.jpg".to_string()));
    assert_eq!(catalog.get_metadata_source_path(2), Ok("a.jpg.xmp".to_string()));
}

#[test]
fn sinks_are_media_first_then_sidecar() {
    let catalog = Catalog::new(vec![file("a.jpg.xmp"), file("a.jpg"), file("b.jpg")]);
    assert_eq!(
        catalog.get_media_sinks(1),
        Ok(vec![(1, "a.jpg".to_string()), (0, "a.jpg.xmp".to_string())])
    );
    assert_eq!(catalog.get_media_sinks(2), Ok(vec![(2, "b.jpg".to_string())]));
    assert_eq!(catalog.get_media_sinks(0), Ok(vec![(0, "a.jpg.xmp".to_string())]));
}

#[test]
fn update_replaces_the_record_and_keeps_the_role() {
    let mut catalog = Catalog::new(vec![file("a.jpg"), file("a.jpg.xmp")]);
    assert_eq!(catalog.update(0, retagged("a.jpg", "me")), Ok(()));
    assert_eq!(catalog.get_metadata(0), Ok(&retagged("a.jpg", "me")));
    assert_eq!(catalog.get_metadata(1), Ok(&file("a.jpg.xmp")));
    assert_eq!(catalog.update(1, retagged("moved/a.jpg.xmp", "me")), Ok(()));
    assert_eq!(catalog.get_metadata(1), Ok(&retagged("moved/a.jpg.xmp", "me")));
    // The sidecar still belongs to the media path it was catalogued for.
    assert_eq!(
        catalog.get_media_sinks(0),
        Ok(vec![(0, "a.jpg".to_string()), (1, "moved/a.jpg.xmp".to_string())])
    );
    let media: Vec<u32> = catalog.iter_media().iter().map(|p| p.0).collect();
    assert_eq!(media, vec![0]);
}

#[test]
fn missing_sidecars_are_media_without_one() {
    let mut catalog = Catalog::new(vec![file("a.jpg"), file("b.jpg"), file("a.jpg.xmp"), file("c.mov")]);
    assert_eq!(
        catalog.get_missing_sidecars(),
        vec!["b.jpg".to_string(), "c.mov".to_string()]
    );
    let h = catalog.insert_sidecar(file("b.jpg.xmp"));
    assert_eq!(h, 4);
    assert_eq!(catalog.get_missing_sidecars(), vec!["c.mov".to_string()]);
    assert_eq!(
        catalog.get_media_sinks(1),
        Ok(vec![(1, "b.jpg".to_string()), (4, "b.jpg.xmp".to_string())])
    );
}

#[test]
fn iter_media_leaves_out_sidecars_and_removed_entries() {
    let mut catalog = Catalog::new(vec![file("a.jpg"), file("a.jpg.xmp"), file("b.mov"), file("c.heic")]);
    assert_eq!(catalog.remove(2), Ok(vec!["b.mov".to_string()]));
    let media = catalog.iter_media();
    assert_eq!(media.len(), 2);
    assert_eq!(media[0].0, 0);
    assert_eq!(
        media[0].1,
        &Entry { handle: 0, metadata: file("a.jpg"), role: Role::Media }
    );
    assert_eq!(media[1].0, 3);
    assert_eq!(media[1].1.metadata, file("c.heic"));
}

#[test]
fn validate_tags_checks_every_media_entry() {
    let some = |s: &str| Some(s.to_string());
    let tagged = Metadata {
        source_file: "b.jpg".to_string(),
        create_date: some("d"),
        date_time_original: some("d"),
        artist: some("me"),
        copyright: some("me"),
        gps_altitude: some("1"),
        gps_altitude_ref: some("0"),
        gps_latitude: some("2"),
        gps_latitude_ref: some("N"),
        gps_longitude: some("3"),
        gps_longitude_ref: some("W"),
        make: some("Apple"),
        model: some("iPhone X"),
        ..Default::default()
    };
    let mut untitled = tagged.clone();
    untitled.source_file = "c.jpg".to_string();
    untitled.artist = None;
    let catalog = Catalog::new(vec![file("a.jpg.xmp"), tagged, untitled]);
    assert_eq!(
        catalog.validate_tags(),
        vec![
            (1, vec![]),
            (2, vec![TagWarning { tag: Tag::Artist, severity: Severity::Warning }]),
        ]
    );
}

#[test]
fn handle_count_includes_removed_entries() {
    let mut catalog = Catalog::new(vec![file("a.jpg"), file("b.jpg")]);
    assert_eq!(catalog.handle_count(), 2);
    assert_eq!(catalog.remove(1), Ok(vec!["b.jpg".to_string()]));
    assert_eq!(catalog.handle_count(), 2);
    assert_eq!(catalog.insert(file("c.jpg")), 2);
    assert_eq!(catalog.handle_count(), 3);
}
