use photo_organizer::exiftool::{
    copy_metadata, create_xmp, extract_destination, move_file, read_metadata,
    read_metadata_recursive, DESTINATION_PATTERN, MOVE_DATE_FMT,
};

const SYNC: [&str; 12] = [
    "-Artist",
    "-Copyright",
    "-CreateDate",
    "-DateTimeOriginal",
    "-GPSAltitude",
    "-GPSAltitudeRef",
    "-GPSLatitude",
    "-GPSLatitudeRef",
    "-GPSLongitude",
    "-GPSLongitudeRef",
    "-Make",
    "-Model",
];

const SYS: [&str; 7] = [
    "-d",
    "%Y-%m-%d %H:%M:%S %z",
    "-ContentIdentifier",
    "-CompressorID",
    "-FileModifyDate",
    "-FileType",
    "-FileTypeExtension",
];

fn strings(parts: &[&[&str]]) -> Vec<String> {
    let mut out = Vec::new();
    for part in parts {
        for s in part.iter() {
            out.push(s.to_string());
        }
    }
    out
}

#[test]
fn test_extract_destination() {
    let stdout = b"'old/path/name.jpg' --> 'new/path/name.jpg'";
    assert_eq!(
        extract_destination(stdout.to_vec()),
        Some("new/path/name.jpg".to_string())
    );
}

#[test]
fn extract_destination_skips_other_output() {
    let stdout = b"======== a.jpg\n'a.jpg' --> '2023/04/230405_123456.jpg'\n    1 image files updated\n";
    assert_eq!(
        extract_destination(stdout.to_vec()),
        Some("2023/04/230405_123456.jpg".to_string())
    );
}

#[test]
fn extract_destination_without_rename_is_none() {
    assert_eq!(extract_destination(b"    1 image files read\n".to_vec()), None);
    assert_eq!(extract_destination(Vec::new()), None);
}

#[test]
fn extract_destination_of_invalid_utf8_is_none() {
    let mut stdout = b"'a' --> 'b'".to_vec();
    stdout.push(0xff);
    assert_eq!(extract_destination(stdout), None);
}

#[test]
fn extract_destination_keeps_unicode_names() {
    let stdout = "'a.jpg' --> 'été/ß.jpg'".as_bytes().to_vec();
    assert_eq!(extract_destination(stdout), Some("été/ß.jpg".to_string()));
}

#[test]
fn patterns_and_formats() {
    assert_eq!(DESTINATION_PATTERN, "'.+' --> '(.+)'");
    assert_eq!(MOVE_DATE_FMT, "%Y/%m/%y%m%d_%H%M%S%%+c");
}

#[test]
fn copy_metadata_arguments() {
    assert_eq!(
        copy_metadata("a.heic", "a.mov"),
        strings(&[&["-tagsFromFile", "a.heic"], &SYNC, &["a.mov"]])
    );
}

#[test]
fn create_xmp_arguments() {
    assert_eq!(
        create_xmp("dir/a.jpg"),
        strings(&[&["-v", "-o", "dir/a.jpg.xmp", "dir/a.jpg"]])
    );
}

#[test]
fn move_file_arguments() {
    assert_eq!(
        move_file("-FileName<lib/${DateTimeOriginal}.jpg", "a.jpg", "a.jpg.xmp"),
        strings(&[&[
            "-tagsFromFile",
            "a.jpg.xmp",
            "-v",
            "-d",
            "%Y/%m/%y%m%d_%H%M%S%%+c",
            "-FileName<lib/${DateTimeOriginal}.jpg",
            "a.jpg",
        ]])
    );
}

#[test]
fn read_metadata_arguments() {
    assert_eq!(
        read_metadata("a.jpg"),
        strings(&[&SYS, &SYNC, &["-json", "a.jpg"]])
    );
}

#[test]
fn read_metadata_recursive_arguments() {
    assert_eq!(
        read_metadata_recursive("lib", None),
        strings(&[&SYS, &SYNC, &["-json", "-r", "lib"]])
    );
    assert_eq!(
        read_metadata_recursive("lib", Some("lib/trash")),
        strings(&[&SYS, &SYNC, &["-json", "-r", "lib", "-i", "lib/trash"]])
    );
}
