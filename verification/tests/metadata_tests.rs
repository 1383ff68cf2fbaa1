use chrono::{FixedOffset, TimeZone};
use photo_organizer::error::Error;
use photo_organizer::metadata::{
    is_my_camera, Metadata, ModifyDate, Severity, Tag, TagWarning, DATETIME_FMT,
};

fn warning(tag: Tag) -> TagWarning {
    TagWarning { tag, severity: Severity::Warning }
}

fn note(tag: Tag) -> TagWarning {
    TagWarning { tag, severity: Severity::Note }
}

fn fully_tagged(model: &str) -> Metadata {
    let some = |s: &str| Some(s.to_string());
    Metadata {
        source_file: "a.jpg".to_string(),
        file_modify_date: "2023-04-05 12:34:56 +0000".to_string(),
        file_type: "JPEG".to_string(),
        file_type_extension: "JPEG".to_string(),
        content_identifier: None,
        compressor_id: None,
        create_date: some("2023-04-05 12:34:56 +0000"),
        date_time_original: some("2023-04-05 12:34:56 +0000"),
        artist: some("Me"),
        copyright: some("Me"),
        gps_altitude: some("1"),
        gps_altitude_ref: some("0"),
        gps_latitude: some("2"),
        gps_latitude_ref: some("N"),
        gps_longitude: some("3"),
        gps_longitude_ref: some("W"),
        make: some("Canon"),
        model: some(model),
    }
}

#[test]
fn test_get_file_modify_date() {
    let m = Metadata {
        file_modify_date: "2023-04-05 12:34:56 +0000".to_string(),
        ..Default::default()
    };

    let dt = m.get_file_modify_date();

    let expected = FixedOffset::east_opt(0)
        .unwrap()
        .with_ymd_and_hms(2023, 4, 5, 12, 34, 56)
        .unwrap();
    assert_eq!(
        dt,
        Ok(ModifyDate {
            seconds: expected.timestamp(),
            nanos: expected.timestamp_subsec_nanos()
        })
    );
}

#[test]
fn get_file_modify_date_gives_unix_seconds() {
    let m = Metadata {
        file_modify_date: "2023-04-05 12:34:56 +0000".to_string(),
        ..Default::default()
    };
    assert_eq!(
        m.get_file_modify_date(),
        Ok(ModifyDate { seconds: 1_680_698_096, nanos: 0 })
    );
}

#[test]
fn get_file_modify_date_applies_the_offset() {
    let m = Metadata {
        file_modify_date: "2023-04-05 12:34:56 +0200".to_string(),
        ..Default::default()
    };
    assert_eq!(
        m.get_file_modify_date(),
        Ok(ModifyDate { seconds: 1_680_690_896, nanos: 0 })
    );
}

#[test]
fn get_file_modify_date_without_timezone_is_malformed() {
    let m = Metadata {
        file_modify_date: "2023-04-05 12:34:56".to_string(),
        ..Default::default()
    };
    assert_eq!(m.get_file_modify_date(), Err(Error::MalformedTimestamp));
}

#[test]
fn get_file_modify_date_of_empty_string_is_malformed() {
    let m = Metadata::default();
    assert_eq!(m.get_file_modify_date(), Err(Error::MalformedTimestamp));
}

#[test]
fn datetime_format_is_the_exiftool_format() {
    assert_eq!(DATETIME_FMT, "%Y-%m-%d %H:%M:%S %z");
}

#[test]
fn error_messages() {
    assert_eq!(Error::NotFound.message(), "file handle not found in catalog");
    assert_eq!(Error::MalformedTimestamp.message(), "invalid datetime string");
}

#[test]
fn later_date_is_later() {
    let early = ModifyDate { seconds: 10, nanos: 5 };
    let late = ModifyDate { seconds: 11, nanos: 0 };
    let later_nanos = ModifyDate { seconds: 10, nanos: 6 };
    assert!(late.is_later_than(&early));
    assert!(!early.is_later_than(&late));
    assert!(later_nanos.is_later_than(&early));
    assert!(!early.is_later_than(&early));
    assert!(late > early);
}

#[test]
fn default_metadata_is_empty() {
    let m = Metadata::default();
    assert_eq!(m.source_file, "");
    assert_eq!(m.file_modify_date, "");
    assert_eq!(m.file_type, "");
    assert_eq!(m.file_type_extension, "");
    assert_eq!(m.content_identifier, None);
    assert_eq!(m.compressor_id, None);
    assert_eq!(m.model, None);
}

#[test]
fn clone_keeps_every_field() {
    let mut m = fully_tagged("iPhone X");
    m.content_identifier = Some("id".to_string());
    m.compressor_id = Some("avc1".to_string());
    assert_eq!(m.clone(), m);
}

#[test]
fn my_cameras_are_recognised() {
    for model in [
        "Canon EOS RP",
        "Canon EOS 100D",
        "D3100",
        "iPhone 12 Mini",
        "iPhone XS",
        "iPad (6th generation)",
        "iPhone X",
        "XT1575",
        "iPad Air",
        "iPhone 6 Plus",
        "iPhone 6",
        "Pixel",
        "iPhone 5",
        "PC36100",
    ] {
        assert!(is_my_camera(model), "{}", model);
    }
    assert!(!is_my_camera("iPhone 7"));
    assert!(!is_my_camera("iphone x"));
    assert!(!is_my_camera(""));
}

#[test]
fn maybe_my_camera_needs_a_model() {
    assert!(!Metadata::default().maybe_my_camera());
    assert!(fully_tagged("Pixel").maybe_my_camera());
    assert!(!fully_tagged("Pixel 2").maybe_my_camera());
}

#[test]
fn validate_tags_of_fully_tagged_file_finds_nothing() {
    assert_eq!(fully_tagged("iPhone X").validate_tags(), vec![]);
    assert_eq!(fully_tagged("Some Camera").validate_tags(), vec![]);
}

#[test]
fn validate_tags_of_empty_record_lists_all_in_order() {
    assert_eq!(
        Metadata::default().validate_tags(),
        vec![
            warning(Tag::GpsAltitude),
            warning(Tag::GpsAltitudeRef),
            warning(Tag::GpsLatitude),
            warning(Tag::GpsLatitudeRef),
            warning(Tag::GpsLongitude),
            warning(Tag::GpsLongitudeRef),
            warning(Tag::Make),
            warning(Tag::Model),
            note(Tag::Artist),
            note(Tag::Copyright),
            warning(Tag::CreateDate),
            warning(Tag::DateTimeOriginal),
        ]
    );
}

#[test]
fn validate_tags_expects_attribution_from_my_camera() {
    let mut m = fully_tagged("iPhone X");
    m.artist = None;
    m.copyright = None;
    assert_eq!(
        m.validate_tags(),
        vec![warning(Tag::Artist), warning(Tag::Copyright)]
    );
}

#[test]
fn validate_tags_only_notes_attribution_from_other_cameras() {
    let mut m = fully_tagged("Some Camera");
    m.artist = None;
    m.copyright = None;
    assert_eq!(m.validate_tags(), vec![note(Tag::Artist), note(Tag::Copyright)]);
}

#[test]
fn validate_tags_does_not_stop_at_the_first_finding() {
    let mut m = fully_tagged("iPhone X");
    m.gps_latitude = None;
    m.make = None;
    m.date_time_original = None;
    assert_eq!(
        m.validate_tags(),
        vec![
            warning(Tag::GpsLatitude),
            warning(Tag::Make),
            warning(Tag::DateTimeOriginal)
        ]
    );
}
